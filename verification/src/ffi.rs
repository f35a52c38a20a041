//! Changes to foreign-facing signatures.
//!
//! The items of foreign blocks, and functions that are `no_mangle` or name an
//! ABI, are a contract with code outside Rust that no analysis here can follow,
//! so every change is of high severity.
use crate::cfg::{parse_and_filter, visible_items, FeatureSet, FeaturesView};
use crate::diff::opt_str;
use crate::finding::{
    finding_views, new_finding, opt_text, Finding, FindingKind, FindingView, KindView, Tier,
};
use crate::names::increasing;
use crate::order::{lemma_sorted_map, sort, sorted};
use crate::syntax::{
    attr_nodes, item_node, item_nodes, lemma_item_nodes, opt_pair_views, AttrNode, AttrView,
    BodyView, ItemBody, ItemKind, ItemView, SourceItem,
};
use crate::text::{less, same, text_lt};
use crate::textmap::{keys, lookup, put, putting_sets_one_key, TextMap};
use vstd::prelude::*;
use vstd::string::*;

verus! {

/// Signatures by name.
pub type SignatureMap = Seq<(Seq<char>, Seq<char>)>;

/// Whether some attribute is the plain word `name`.
pub open spec fn has_attr(attrs: Seq<AttrView>, name: Seq<char>) -> bool {
    exists|i: int| 0 <= i < attrs.len() && (#[trigger] attrs[i]).ident == Some(name)
}

/// Signatures with those of the first `n` items of a foreign block.
pub open spec fn with_foreign(
    m: SignatureMap,
    foreign: Seq<Option<(Seq<char>, Seq<char>)>>,
    n: nat,
) -> SignatureMap
    decreases n,
{
    if n == 0 {
        m
    } else {
        let rest = with_foreign(m, foreign, (n - 1) as nat);
        match foreign[n - 1] {
            Some(p) => put(rest, p.0, p.1),
            None => rest,
        }
    }
}

/// Signatures with those of one more item.
pub open spec fn with_item(m: SignatureMap, item: ItemView) -> SignatureMap {
    match item.body {
        BodyView::Leaf(l) => if item.kind == ItemKind::ForeignMod {
            with_foreign(m, l.foreign, l.foreign.len())
        } else if item.kind == ItemKind::Fn {
            match (l.signature, item.name) {
                (Some(s), Some(n)) => if has_attr(item.attrs, "no_mangle"@) || s.1 {
                    put(m, n, s.0)
                } else {
                    m
                },
                _ => m,
            }
        } else {
            m
        },
        _ => m,
    }
}

/// The foreign-facing signatures at the top level of a file, by name.
pub open spec fn signature_map(items: Seq<ItemView>) -> SignatureMap
    decreases items.len(),
{
    if items.len() == 0 {
        Seq::empty()
    } else {
        with_item(signature_map(items.drop_last()), items.last())
    }
}

fn carries(attrs: &Vec<AttrNode>, name: &str) -> (r: bool)
    ensures
        r == has_attr(attr_nodes(attrs@), name@),
{
    let mut i: usize = 0;
    while i < attrs.len()
        invariant
            i <= attrs@.len(),
            forall|j: int|
                0 <= j < i ==> (#[trigger] attr_nodes(attrs@)[j]).ident != Some(name@),
        decreases attrs@.len() - i,
    {
        proof {
            assert(attr_nodes(attrs@)[i as int].ident == opt_text(attrs@[i as int].ident));
        }
        match &attrs[i].ident {
            Some(s) => {
                if same(s.as_str(), name) {
                    return true;
                }
            },
            None => {},
        }
        i = i + 1;
    }
    false
}

/// The foreign-facing signatures at the top level of a file, by name.
pub fn ffi_signatures(items: &Vec<SourceItem>) -> (r: TextMap<String>)
    ensures
        r@ == signature_map(item_nodes(items@)),
{
    let ghost views = item_nodes(items@);
    let mut out: TextMap<String> = TextMap::new();
    let mut i: usize = 0;
    proof {
        lemma_item_nodes(items@);
    }
    while i < items.len()
        invariant
            i <= items@.len(),
            views == item_nodes(items@),
            views.len() == items@.len(),
            forall|j: int| 0 <= j < items@.len() ==> #[trigger] views[j] == item_node(items@[j]),
            out@ == signature_map(views.take(i as int)),
        decreases items@.len() - i,
    {
        let ghost before = out@;
        let item = &items[i];
        proof {
            assert(views.take(i + 1).drop_last() =~= views.take(i as int));
            assert(views.take(i + 1).last() == views[i as int]);
            assert(views[i as int] == item_node(*item));
        }
        match &item.body {
            ItemBody::Leaf(l) => {
                if item.kind == ItemKind::ForeignMod {
                    let ghost foreign = opt_pair_views(l.foreign@);
                    let mut k: usize = 0;
                    while k < l.foreign.len()
                        invariant
                            k <= l.foreign@.len(),
                            foreign == opt_pair_views(l.foreign@),
                            out@ == with_foreign(before, foreign, k as nat),
                        decreases l.foreign@.len() - k,
                    {
                        proof {
                            assert(foreign[k as int] == (match l.foreign@[k as int] {
                                Some(p) => Some((p.0@, p.1@)),
                                None => None,
                            }));
                        }
                        match &l.foreign[k] {
                            Some(p) => {
                                out.insert(p.0.as_str(), p.1.clone());
                            },
                            None => {},
                        }
                        k = k + 1;
                    }
                } else if item.kind == ItemKind::Fn {
                    match (&l.signature, &item.name) {
                        (Some(s), Some(n)) => {
                            if carries(&item.attrs, "no_mangle") || s.1 {
                                out.insert(n.as_str(), s.0.clone());
                            }
                        },
                        _ => {},
                    }
                }
            },
            _ => {},
        }
        i = i + 1;
    }
    proof {
        assert(views.take(items@.len() as int) =~= views);
    }
    out
}

/// The finding for a changed signature.
pub open spec fn ffi_finding(name: Seq<char>, file: Seq<char>, change: Seq<char>) -> FindingView {
    new_finding(
        ""@,
        Tier::Likely,
        95,
        KindView::FfiSignatureChange { symbol: name, file, change },
        "FFI signature `"@ + name + "` "@ + change + " in "@ + file
            + " — blast radius leaves Rust; downstream native consumers cannot be analyzed"@,
    )
}

fn mk_finding(name: &str, file: &str, change: &'static str) -> (r: Finding)
    ensures
        r@ == ffi_finding(name@, file@, change@),
{
    let mut evidence = "FFI signature `".to_owned();
    evidence.append(name);
    evidence.append("` ");
    evidence.append(change);
    evidence.append(" in ");
    evidence.append(file);
    evidence.append(
        " — blast radius leaves Rust; downstream native consumers cannot be analyzed",
    );
    let kind = FindingKind::FfiSignatureChange {
        symbol: name.to_owned(),
        file: file.to_owned(),
        change,
    };
    Finding::new("", Tier::Likely, 95, kind, evidence.as_str())
}

/// Findings for the first `n` signatures of the new version that are new or
/// differ.
pub open spec fn new_signatures(file: Seq<char>, old: SignatureMap, new: SignatureMap, n: nat) -> Seq<
    FindingView,
>
    decreases n,
{
    if n == 0 {
        Seq::empty()
    } else {
        let rest = new_signatures(file, old, new, (n - 1) as nat);
        let e = new[n - 1];
        match lookup(old, e.0) {
            None => rest.push(ffi_finding(e.0, file, "added"@)),
            Some(s) => if s != e.1 {
                rest.push(ffi_finding(e.0, file, "modified"@))
            } else {
                rest
            },
        }
    }
}

/// Findings for the first `n` signatures of the old version that are gone.
pub open spec fn gone_signatures(
    file: Seq<char>,
    old: SignatureMap,
    new: SignatureMap,
    n: nat,
) -> Seq<FindingView>
    decreases n,
{
    if n == 0 {
        Seq::empty()
    } else {
        let rest = gone_signatures(file, old, new, (n - 1) as nat);
        if lookup(new, old[n - 1].0) is None {
            rest.push(ffi_finding(old[n - 1].0, file, "removed"@))
        } else {
            rest
        }
    }
}

/// The order of findings by evidence.
pub open spec fn by_evidence() -> spec_fn(FindingView, FindingView) -> bool {
    |a: FindingView, b: FindingView| text_lt(a.evidence, b.evidence)
}

/// Findings for the changes between two sets of signatures, by evidence.
pub open spec fn signature_changes(file: Seq<char>, old: SignatureMap, new: SignatureMap) -> Seq<
    FindingView,
> {
    sorted(
        new_signatures(file, old, new, new.len()) + gone_signatures(file, old, new, old.len()),
        by_evidence(),
    )
}

/// The signatures of a source text; none when it does not parse.
pub open spec fn text_signatures(src: Seq<char>, f: FeaturesView) -> SignatureMap {
    match visible_items(src, f) {
        Some(items) => signature_map(items),
        None => Seq::empty(),
    }
}

/// The findings for a file: none when the new version does not parse. A
/// version that is missing has no signatures.
pub open spec fn ffi_changes(
    wt: Option<Seq<char>>,
    head: Option<Seq<char>>,
    file: Seq<char>,
    f: FeaturesView,
) -> Seq<FindingView> {
    let old = match head {
        Some(h) => text_signatures(h, f),
        None => Seq::empty(),
    };
    match wt {
        None => signature_changes(file, old, Seq::empty()),
        Some(w) => match visible_items(w, f) {
            None => Seq::empty(),
            Some(items) => signature_changes(file, old, signature_map(items)),
        },
    }
}

fn evidence_less(a: &Finding, b: &Finding) -> (r: bool)
    ensures
        r == text_lt(a.evidence@, b.evidence@),
{
    less(a.evidence.as_str(), b.evidence.as_str())
}

pub fn diff_signatures(file: &str, old: &TextMap<String>, new: &TextMap<String>) -> (r: Vec<Finding>)
    ensures
        finding_views(r@) == signature_changes(file@, old@, new@),
{
    let mut out: Vec<Finding> = Vec::new();
    let mut i: usize = 0;
    proof {
        assert(finding_views(out@) =~= Seq::empty());
    }
    while i < new.entries.len()
        invariant
            i <= new.entries@.len(),
            finding_views(out@) == new_signatures(file@, old@, new@, i as nat),
        decreases new.entries@.len() - i,
    {
        let ghost before = out@;
        proof {
            assert(new@[i as int] == (
                new.entries@[i as int].0@,
                new.entries@[i as int].1@,
            ));
        }
        let name = new.entries[i].0.as_str();
        match old.get(name) {
            None => {
                let f = mk_finding(name, file, "added");
                proof {
                    assert(finding_views(out@.push(f)) =~= finding_views(out@).push(f@));
                }
                out.push(f);
            },
            Some(s) => {
                if !same(s.as_str(), new.entries[i].1.as_str()) {
                    let f = mk_finding(name, file, "modified");
                    proof {
                        assert(finding_views(out@.push(f)) =~= finding_views(out@).push(f@));
                    }
                    out.push(f);
                }
            },
        }
        i = i + 1;
    }
    let ghost first = new_signatures(file@, old@, new@, new@.len());
    let mut k: usize = 0;
    proof {
        assert(first + gone_signatures(file@, old@, new@, 0) =~= first);
    }
    while k < old.entries.len()
        invariant
            k <= old.entries@.len(),
            finding_views(out@) == first + gone_signatures(file@, old@, new@, k as nat),
        decreases old.entries@.len() - k,
    {
        proof {
            assert(old@[k as int].0 == old.entries@[k as int].0@);
        }
        if new.get(old.entries[k].0.as_str()).is_none() {
            let f = mk_finding(old.entries[k].0.as_str(), file, "removed");
            proof {
                let rest = gone_signatures(file@, old@, new@, k as nat);
                assert(finding_views(out@.push(f)) =~= finding_views(out@).push(f@));
                assert((first + rest).push(f@) =~= first + rest.push(f@));
            }
            out.push(f);
        }
        k = k + 1;
    }
    let ghost lt = |a: Finding, b: Finding| text_lt(a.evidence@, b.evidence@);
    let ghost all = out@;
    let r = sort(out, evidence_less, Ghost(lt));
    proof {
        let f = |f: Finding| f@;
        lemma_sorted_map(all, lt, f, by_evidence());
    }
    r
}

/// The findings for the foreign-facing signatures that changed between two
/// versions of a file.
pub fn find_ffi_changes(
    wt: Option<&str>,
    head: Option<&str>,
    file: &str,
    features: &FeatureSet,
) -> (r: Vec<Finding>)
    ensures
        finding_views(r@) == ffi_changes(opt_str(wt), opt_str(head), file@, features@),
{
    let empty: Vec<Finding> = Vec::new();
    proof {
        assert(finding_views(empty@) =~= Seq::empty());
    }
    let new = match wt {
        Some(w) => match parse_and_filter(w, features) {
            Some(tree) => ffi_signatures(&tree.items),
            None => {
                return empty;
            },
        },
        None => TextMap::new(),
    };
    let old = match head {
        Some(h) => match parse_and_filter(h, features) {
            Some(tree) => ffi_signatures(&tree.items),
            None => TextMap::new(),
        },
        None => TextMap::new(),
    };
    diff_signatures(file, &old, &new)
}

// ---------------------------------------------------------------------------
// Laws
// ---------------------------------------------------------------------------

/// The signature of a function.
pub open spec fn signature_of(l: crate::syntax::LeafView) -> Seq<char> {
    l.signature.unwrap().0
}

/// Whether a function names an ABI.
pub open spec fn names_abi(l: crate::syntax::LeafView) -> bool {
    l.signature.unwrap().1
}

/// The name of an item of a foreign block.
spec fn foreign_name(o: Option<(Seq<char>, Seq<char>)>) -> Seq<char> {
    o.unwrap().0
}

/// Whether an item lets a signature be seen from outside Rust: it is a foreign
/// block that holds it, or a function of that name and signature that is marked
/// `no_mangle` or names an ABI.
pub open spec fn exposes(item: ItemView, name: Seq<char>, sig: Seq<char>) -> bool {
    match item.body {
        BodyView::Leaf(l) => {
            ||| item.kind == ItemKind::ForeignMod && l.foreign.contains(Some((name, sig)))
            ||| item.kind == ItemKind::Fn && item.name == Some(name) && l.signature is Some
                && signature_of(l) == sig && (names_abi(l) || exists|i: int|
                0 <= i < item.attrs.len() && (#[trigger] item.attrs[i]).ident == Some("no_mangle"@))
        },
        _ => false,
    }
}

proof fn lemma_with_foreign(
    m: SignatureMap,
    foreign: Seq<Option<(Seq<char>, Seq<char>)>>,
    n: nat,
    k: Seq<char>,
)
    requires
        increasing(keys(m)),
        n <= foreign.len(),
    ensures
        increasing(keys(with_foreign(m, foreign, n))),
        match lookup(with_foreign(m, foreign, n), k) {
            Some(s) => foreign.contains(Some((k, s))) || (lookup(m, k) == Some(s) && forall|j: int|
                0 <= j < n ==> (#[trigger] foreign[j]) is None || foreign_name(foreign[j]) != k),
            None => lookup(m, k) is None && forall|j: int|
                0 <= j < n ==> (#[trigger] foreign[j]) is None || foreign_name(foreign[j]) != k,
        },
    decreases n,
{
    if n > 0 {
        let rest = with_foreign(m, foreign, (n - 1) as nat);
        lemma_with_foreign(m, foreign, (n - 1) as nat, k);
        if let Some(p) = foreign[n - 1] {
            putting_sets_one_key(rest, p.0, p.1);
            assert(foreign.contains(foreign[n - 1]));
        }
    }
}

/// Under a name the signatures of a file hold one that the last item with that
/// name lets be seen; a name that no item at the top level lets be seen is not
/// there.
pub proof fn visible_signatures_are_found_by_name(items: Seq<ItemView>, k: Seq<char>)
    ensures
        increasing(keys(signature_map(items))),
        match lookup(signature_map(items), k) {
            Some(s) => exists|i: int|
                0 <= i < items.len() && #[trigger] exposes(items[i], k, s) && forall|
                    j: int,
                    other: Seq<char>,
                |
                    i < j < items.len() ==> !#[trigger] exposes(items[j], k, other),
            None => forall|i: int, other: Seq<char>|
                0 <= i < items.len() ==> !#[trigger] exposes(items[i], k, other),
        },
    decreases items.len(),
{
    if items.len() > 0 {
        let d = items.drop_last();
        let n = items.len() - 1;
        let last = items.last();
        let below = signature_map(d);
        assert(items[n] == last);
        visible_signatures_are_found_by_name(d, k);
        let now = lookup(signature_map(items), k);
        let own = exists|s: Seq<char>| #[trigger] exposes(last, k, s);
        if let BodyView::Leaf(l) = last.body {
            if last.kind == ItemKind::ForeignMod {
                lemma_with_foreign(below, l.foreign, l.foreign.len(), k);
                if own {
                    let s = choose|s: Seq<char>| #[trigger] exposes(last, k, s);
                    let j = l.foreign.index_of(Some((k, s)));
                    assert(l.foreign[j] is Some && l.foreign[j] == Some((k, s)));
                    assert(now is Some && exposes(last, k, now->0));
                } else {
                    if now is Some {
                        assert(!exposes(last, k, now->0));
                    }
                    if lookup(below, k) is Some && now is Some {
                        assert(now == lookup(below, k));
                    }
                }
            } else if last.kind == ItemKind::Fn && l.signature is Some && last.name is Some {
                let name = last.name->0;
                putting_sets_one_key(below, name, signature_of(l));
                if has_attr(last.attrs, "no_mangle"@) {
                    let i = choose|i: int|
                        0 <= i < last.attrs.len() && (#[trigger] last.attrs[i]).ident == Some(
                            "no_mangle"@,
                        );
                    assert(last.attrs[i].ident == Some("no_mangle"@));
                }
                if name == k && (has_attr(last.attrs, "no_mangle"@) || names_abi(l)) {
                    assert(exposes(last, k, signature_of(l)));
                }
            }
        }
        if own {
            assert(now is Some && exposes(items[n], k, now->0));
        } else {
            assert(now == lookup(below, k));
            if now is Some {
                let s = now->0;
                let i = choose|i: int|
                    0 <= i < d.len() && #[trigger] exposes(d[i], k, s) && forall|
                        j: int,
                        other: Seq<char>,
                    |
                        i < j < d.len() ==> !#[trigger] exposes(d[j], k, other);
                assert(items[i] == d[i]);
                assert(exposes(items[i], k, s));
                assert forall|j: int, other: Seq<char>| i < j < items.len() implies !#[trigger] exposes(
                    items[j],
                    k,
                    other,
                ) by {
                    if j < n {
                        assert(d[j] == items[j]);
                        assert(!exposes(d[j], k, other));
                    }
                }
            } else {
                assert forall|i: int, other: Seq<char>|
                    0 <= i < items.len() implies !#[trigger] exposes(items[i], k, other) by {
                    if i < n {
                        assert(d[i] == items[i]);
                        assert(!exposes(d[i], k, other));
                    }
                }
            }
        }
    } else {
        assert(keys(signature_map(items)) =~= Seq::empty());
    }
}

proof fn lemma_new_signatures_are(
    file: Seq<char>,
    old: SignatureMap,
    new: SignatureMap,
    n: nat,
    x: FindingView,
)
    requires
        n <= new.len(),
    ensures
        new_signatures(file, old, new, n).contains(x) <==> exists|i: int|
            0 <= i < n && ((lookup(old, (#[trigger] new[i]).0) is None && x == ffi_finding(
                new[i].0,
                file,
                "added"@,
            )) || (lookup(old, new[i].0) is Some && lookup(old, new[i].0)->0 != new[i].1 && x
                == ffi_finding(new[i].0, file, "modified"@))),
    decreases n,
{
    if n > 0 {
        let m = (n - 1) as nat;
        lemma_new_signatures_are(file, old, new, m, x);
        let rest = new_signatures(file, old, new, m);
        let e = new[n - 1];
        let a = ffi_finding(e.0, file, "added"@);
        let b = ffi_finding(e.0, file, "modified"@);
        assert(rest.push(a) =~= rest + seq![a]);
        assert(rest.push(b) =~= rest + seq![b]);
        crate::scan::lemma_contains_add(rest, seq![a], x);
        crate::scan::lemma_contains_add(rest, seq![b], x);
        assert(seq![a][0] == a && seq![b][0] == b);
        assert(seq![a].contains(x) <==> x == a);
        assert(seq![b].contains(x) <==> x == b);
    }
}

proof fn lemma_gone_signatures_are(
    file: Seq<char>,
    old: SignatureMap,
    new: SignatureMap,
    n: nat,
    x: FindingView,
)
    requires
        n <= old.len(),
    ensures
        gone_signatures(file, old, new, n).contains(x) <==> exists|i: int|
            0 <= i < n && lookup(new, (#[trigger] old[i]).0) is None && x == ffi_finding(
                old[i].0,
                file,
                "removed"@,
            ),
    decreases n,
{
    if n > 0 {
        let m = (n - 1) as nat;
        lemma_gone_signatures_are(file, old, new, m, x);
        let rest = gone_signatures(file, old, new, m);
        let a = ffi_finding(old[n - 1].0, file, "removed"@);
        assert(rest.push(a) =~= rest + seq![a]);
        crate::scan::lemma_contains_add(rest, seq![a], x);
        assert(seq![a][0] == a);
        assert(seq![a].contains(x) <==> x == a);
    }
}

proof fn lemma_by_evidence_is_weak()
    ensures
        crate::order::weak_order(by_evidence()),
{
    let lt = by_evidence();
    assert forall|a: FindingView| !#[trigger] lt(a, a) by {
        crate::text::lemma_text_lt_irreflexive(a.evidence);
    }
    assert forall|a: FindingView, b: FindingView, c: FindingView| #[trigger]
        lt(a, c) implies #[trigger] lt(a, b) || lt(b, c) by {
        crate::text::lemma_text_lt_total(a.evidence, b.evidence);
        if text_lt(b.evidence, a.evidence) {
            crate::text::lemma_text_lt_transitive(b.evidence, a.evidence, c.evidence);
        }
    }
    assert forall|a: FindingView, b: FindingView| #[trigger] lt(a, b) implies !lt(b, a) by {
        crate::text::lemma_text_lt_asymmetric(a.evidence, b.evidence);
    }
}

/// A signature is reported exactly where the two versions do not agree on it: as
/// added where the new version alone has the name, as removed where the old one
/// alone has it, as modified where both have it and the signatures differ. The
/// findings stand in the order of their evidence.
pub proof fn signature_differences_are_reported(
    file: Seq<char>,
    old: SignatureMap,
    new: SignatureMap,
    x: FindingView,
)
    requires
        increasing(keys(old)),
        increasing(keys(new)),
    ensures
        signature_changes(file, old, new).contains(x) <==> exists|k: Seq<char>|
            #![trigger lookup(new, k)]
            (lookup(new, k) is Some && lookup(old, k) is None && x == ffi_finding(
                k,
                file,
                "added"@,
            )) || (lookup(new, k) is None && lookup(old, k) is Some && x == ffi_finding(
                k,
                file,
                "removed"@,
            )) || (lookup(new, k) is Some && lookup(old, k) is Some && lookup(new, k) != lookup(
                old,
                k,
            ) && x == ffi_finding(k, file, "modified"@)),
        crate::order::in_order(signature_changes(file, old, new), by_evidence()),
{
    broadcast use vstd::seq_lib::group_to_multiset_ensures;

    let a = new_signatures(file, old, new, new.len());
    let b = gone_signatures(file, old, new, old.len());
    lemma_by_evidence_is_weak();
    crate::order::sorting_orders(a + b, by_evidence());
    assert((a + b).to_multiset().contains(x) == signature_changes(
        file,
        old,
        new,
    ).to_multiset().contains(x));
    crate::scan::lemma_contains_add(a, b, x);
    lemma_new_signatures_are(file, old, new, new.len(), x);
    lemma_gone_signatures_are(file, old, new, old.len(), x);
    assert forall|i: int| 0 <= i < new.len() implies lookup(new, (#[trigger] new[i]).0) == Some(
        new[i].1,
    ) by {
        crate::textmap::values_are_those_of_entries(new, new[i].0);
    }
    assert forall|i: int| 0 <= i < old.len() implies lookup(old, (#[trigger] old[i]).0) == Some(
        old[i].1,
    ) by {
        crate::textmap::values_are_those_of_entries(old, old[i].0);
    }
    assert forall|k: Seq<char>| (#[trigger] lookup(new, k)) is Some implies exists|i: int|
        0 <= i < new.len() && (#[trigger] new[i]).0 == k && lookup(new, k) == Some(new[i].1) by {
        crate::textmap::values_are_those_of_entries(new, k);
    }
    assert forall|k: Seq<char>| (#[trigger] lookup(old, k)) is Some implies exists|i: int|
        0 <= i < old.len() && (#[trigger] old[i]).0 == k && lookup(old, k) == Some(old[i].1) by {
        crate::textmap::values_are_those_of_entries(old, k);
    }
}

/// A signature change is graver than anything that stays in Rust, and a likely
/// one; the finding tells of the symbol, the file and what became of it.
pub proof fn foreign_findings_tell_of_symbol_and_file(
    name: Seq<char>,
    file: Seq<char>,
    change: Seq<char>,
)
    ensures
        ffi_finding(name, file, change).kind == (KindView::FfiSignatureChange {
            symbol: name,
            file,
            change,
        }),
        ffi_finding(name, file, change).severity == crate::finding::SeverityClass::High,
        ffi_finding(name, file, change).tier == Tier::Likely,
        ffi_finding(name, file, change).confidence == 95,
{
}

/// A version of a file that is missing, or an old one that does not parse, has no
/// signatures; where a new one is there and does not parse, nothing is reported.
pub proof fn missing_versions_have_no_signatures(
    wt: Seq<char>,
    head: Seq<char>,
    file: Seq<char>,
    f: FeaturesView,
)
    ensures
        visible_items(wt, f) is None ==> ffi_changes(Some(wt), Some(head), file, f).len() == 0
            && ffi_changes(Some(wt), None, file, f).len() == 0,
        visible_items(wt, f) is Some ==> ffi_changes(Some(wt), None, file, f) == signature_changes(
            file,
            Seq::empty(),
            signature_map(visible_items(wt, f)->0),
        ),
        visible_items(head, f) is Some ==> ffi_changes(None, Some(head), file, f)
            == signature_changes(file, signature_map(visible_items(head, f)->0), Seq::empty()),
        visible_items(wt, f) is Some && visible_items(head, f) is Some ==> ffi_changes(
            Some(wt),
            Some(head),
            file,
            f,
        ) == signature_changes(
            file,
            signature_map(visible_items(head, f)->0),
            signature_map(visible_items(wt, f)->0),
        ),
        visible_items(head, f) is None ==> ffi_changes(Some(wt), Some(head), file, f)
            == ffi_changes(Some(wt), None, file, f),
{
}

/// The evidence for a changed signature names the symbol, the change and the
/// file.
pub proof fn foreign_evidence_names_symbol_and_change(
    name: Seq<char>,
    file: Seq<char>,
    change: Seq<char>,
)
    ensures
        crate::text::holds(ffi_finding(name, file, change).evidence, name),
        crate::text::holds(ffi_finding(name, file, change).evidence, change),
        crate::text::holds(ffi_finding(name, file, change).evidence, file),
        ffi_finding(name, file, change).suggested_action is None,
{
    broadcast use crate::text::group_holds;

}

} // verus!
