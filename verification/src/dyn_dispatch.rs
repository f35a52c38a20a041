//! Files that use a changed trait behind `dyn`.
use crate::cfg::{parse_and_filter, visible_source, FeatureSet, FeaturesView};
use crate::finding::{
    finding_views, new_finding, opt_text, Finding, FindingKind, FindingView, KindView, Location,
    LocationView, Tier,
};
use crate::names::NameSet;
use crate::order::lemma_filter_member;
use crate::scan::{
    all_dyn_traits, every_file_is_scanned, lemma_scanned_step, opt_refs, scanned, tree_dyn_traits,
};
use crate::symbols::{file_views, FileView, SourceFile};
use crate::syntax::{SourceTree, TreeView};
use crate::text::{same, texts};
use vstd::prelude::*;
use vstd::string::*;

verus! {

/// The changed traits that `dyn` types name, in order, each once.
pub open spec fn used_traits(changed: Seq<Seq<char>>, sites: Seq<Option<Seq<char>>>) -> Seq<
    Seq<char>,
> {
    changed.filter(|t: Seq<char>| sites.contains(Some(t)))
}

/// The finding for a trait that a file uses behind `dyn`.
pub open spec fn dyn_finding(file: Seq<char>, trait_name: Seq<char>) -> FindingView {
    new_finding(
        ""@,
        Tier::Likely,
        75,
        KindView::DynDispatch {
            trait_name,
            site: LocationView { file, symbol: "dyn "@ + trait_name },
        },
        "`dyn "@ + trait_name
            + "` used in this file — concrete impl resolves at runtime, static analysis cannot predict which"@,
    )
}

/// The findings for the `dyn` types of a file: one per trait, however often it
/// is used.
pub open spec fn file_dyn(changed: Seq<Seq<char>>) -> spec_fn(Seq<char>, TreeView) -> Seq<
    FindingView,
> {
    |file: Seq<char>, tree: TreeView|
        used_traits(changed, tree_dyn_traits(tree)).map_values(
            |t: Seq<char>| dyn_finding(file, t),
        )
}

/// The findings for the `dyn` types of the workspace.
pub open spec fn dyn_dispatch_sites(
    files: Seq<FileView>,
    changed: Seq<Seq<char>>,
    f: FeaturesView,
) -> Seq<FindingView> {
    if changed.len() == 0 {
        Seq::empty()
    } else {
        scanned(files, f, file_dyn(changed))
    }
}

fn make_dyn_finding(file: &str, trait_name: &str) -> (r: Finding)
    ensures
        r@ == dyn_finding(file@, trait_name@),
{
    let mut symbol = "dyn ".to_owned();
    symbol.append(trait_name);
    let mut evidence = "`dyn ".to_owned();
    evidence.append(trait_name);
    evidence.append(
        "` used in this file — concrete impl resolves at runtime, static analysis cannot predict which",
    );
    let kind = FindingKind::DynDispatch {
        trait_name: trait_name.to_owned(),
        site: Location { file: file.to_owned(), symbol },
    };
    Finding::new("", Tier::Likely, 75, kind, evidence.as_str())
}

fn uses(sites: &Vec<&Option<String>>, name: &str) -> (r: bool)
    ensures
        r == opt_refs(sites@).contains(Some(name@)),
{
    let ghost s = opt_refs(sites@);
    let mut i: usize = 0;
    while i < sites.len()
        invariant
            i <= sites@.len(),
            s == opt_refs(sites@),
            forall|j: int| 0 <= j < i ==> #[trigger] s[j] != Some(name@),
        decreases sites@.len() - i,
    {
        proof {
            assert(s[i as int] == opt_text(*sites@[i as int]));
        }
        match sites[i] {
            Some(t) => {
                if same(t.as_str(), name) {
                    proof {
                        assert(s.contains(s[i as int]));
                    }
                    return true;
                }
            },
            None => {},
        }
        i = i + 1;
    }
    false
}

pub fn scan_dyn(file: &str, tree: &SourceTree, changed: &NameSet) -> (r: Vec<Finding>)
    ensures
        finding_views(r@) == file_dyn(changed@)(file@, tree@),
{
    let sites = all_dyn_traits(tree);
    let ghost s = opt_refs(sites@);
    let list = changed.list();
    let ghost all = changed@;
    let ghost p = |t: Seq<char>| s.contains(Some(t));
    let ghost g = |t: Seq<char>| dyn_finding(file@, t);
    let mut out: Vec<Finding> = Vec::new();
    let mut i: usize = 0;
    proof {
        assert(all.take(0).filter(p) =~= Seq::empty()) by {
            reveal(Seq::filter);
        }
        assert(finding_views(out@) =~= all.take(0).filter(p).map_values(g));
    }
    while i < list.len()
        invariant
            i <= list@.len(),
            all == texts(list@),
            s == opt_refs(sites@),
            p == (|t: Seq<char>| s.contains(Some(t))),
            g == (|t: Seq<char>| dyn_finding(file@, t)),
            finding_views(out@) == all.take(i as int).filter(p).map_values(g),
        decreases list@.len() - i,
    {
        proof {
            crate::text::lemma_filter_step(all, p, i as int);
            assert(all[i as int] == list@[i as int]@);
        }
        if uses(&sites, list[i].as_str()) {
            let f = make_dyn_finding(file, list[i].as_str());
            proof {
                let before = all.take(i as int).filter(p);
                assert(finding_views(out@.push(f)) =~= finding_views(out@).push(f@));
                assert(before.push(all[i as int]).map_values(g) =~= before.map_values(g).push(f@));
            }
            out.push(f);
        }
        i = i + 1;
    }
    proof {
        assert(all.take(list@.len() as int) =~= all);
    }
    out
}

/// The files of the workspace that use a changed trait behind `dyn`.
pub fn find_dyn_dispatch_sites(
    files: &Vec<SourceFile>,
    changed: &NameSet,
    features: &FeatureSet,
) -> (r: Vec<Finding>)
    ensures
        finding_views(r@) == dyn_dispatch_sites(file_views(files@), changed@, features@),
{
    let mut out: Vec<Finding> = Vec::new();
    let ghost fs = file_views(files@);
    let ghost per = file_dyn(changed@);
    proof {
        assert(finding_views(out@) =~= Seq::empty());
    }
    if changed.is_empty() {
        return out;
    }
    let mut i: usize = 0;
    while i < files.len()
        invariant
            i <= files@.len(),
            fs == file_views(files@),
            per == file_dyn(changed@),
            finding_views(out@) == scanned(fs.take(i as int), features@, per),
        decreases files@.len() - i,
    {
        proof {
            lemma_scanned_step(fs, features@, per, i as int);
            assert(fs[i as int] == files@[i as int]@);
        }
        let ghost before = out@;
        match parse_and_filter(files[i].text.as_str(), features) {
            Some(tree) => {
                let mut more = scan_dyn(files[i].path.as_str(), &tree, changed);
                let ghost added = more@;
                out.append(&mut more);
                proof {
                    assert(finding_views(out@) =~= finding_views(before) + finding_views(added));
                }
            },
            None => {
                proof {
                    assert(finding_views(out@) =~= finding_views(before) + Seq::empty());
                }
            },
        }
        i = i + 1;
    }
    proof {
        assert(fs.take(files@.len() as int) =~= fs);
    }
    out
}

// ---------------------------------------------------------------------------
// Laws
// ---------------------------------------------------------------------------

/// A file is reported for a changed trait exactly where one of its `dyn` types
/// names the trait, whatever else it names.
pub proof fn dyn_uses_of_changed_traits_are_reported(
    files: Seq<FileView>,
    changed: Seq<Seq<char>>,
    f: FeaturesView,
    x: FindingView,
)
    ensures
        dyn_dispatch_sites(files, changed, f).contains(x) <==> exists|i: int, t: Seq<char>|
            0 <= i < files.len() && visible_source(files[i].text, f) is Some && changed.contains(t)
                && tree_dyn_traits(visible_source(files[i].text, f)->0).contains(Some(t)) && x
                == #[trigger] dyn_finding(files[i].path, t),
{
    let per = file_dyn(changed);
    every_file_is_scanned(files, f, per, x);
    if dyn_dispatch_sites(files, changed, f).contains(x) {
        let i = choose|i: int|
            0 <= i < files.len() && visible_source((#[trigger] files[i]).text, f) is Some && per(
                files[i].path,
                visible_source(files[i].text, f)->0,
            ).contains(x);
        let sites = tree_dyn_traits(visible_source(files[i].text, f)->0);
        let p = |t: Seq<char>| sites.contains(Some(t));
        let used = used_traits(changed, sites);
        let g = |t: Seq<char>| dyn_finding(files[i].path, t);
        let k = used.map_values(g).index_of(x);
        let t = used[k];
        assert(used.contains(t));
        lemma_filter_member(changed, p, t);
        assert(x == dyn_finding(files[i].path, t));
    }
    if exists|i: int, t: Seq<char>|
        0 <= i < files.len() && visible_source(files[i].text, f) is Some && changed.contains(t)
            && tree_dyn_traits(visible_source(files[i].text, f)->0).contains(Some(t)) && x
            == #[trigger] dyn_finding(files[i].path, t) {
        let (i, t) = choose|i: int, t: Seq<char>|
            0 <= i < files.len() && visible_source(files[i].text, f) is Some && changed.contains(t)
                && tree_dyn_traits(visible_source(files[i].text, f)->0).contains(Some(t)) && x
                == #[trigger] dyn_finding(files[i].path, t);
        let sites = tree_dyn_traits(visible_source(files[i].text, f)->0);
        let p = |t: Seq<char>| sites.contains(Some(t));
        let used = used_traits(changed, sites);
        let g = |t: Seq<char>| dyn_finding(files[i].path, t);
        lemma_filter_member(changed, p, t);
        let k = used.index_of(t);
        assert(used.map_values(g)[k] == x);
        assert(per(files[i].path, visible_source(files[i].text, f)->0).contains(x));
        assert(changed.len() > 0);
    }
}

/// A file has one finding for a changed trait, however often its `dyn` types name
/// it, and its findings stand in the order of the traits.
pub proof fn dyn_uses_are_reported_once(
    file: Seq<char>,
    tree: TreeView,
    changed: Seq<Seq<char>>,
    i: int,
    j: int,
)
    requires
        crate::names::increasing(changed),
        0 <= i < j < file_dyn(changed)(file, tree).len(),
    ensures
        match (file_dyn(changed)(file, tree)[i].kind, file_dyn(changed)(file, tree)[j].kind) {
            (
                KindView::DynDispatch { trait_name: a, .. },
                KindView::DynDispatch { trait_name: b, .. },
            ) => crate::text::text_lt(a, b),
            _ => false,
        },
{
    let sites = tree_dyn_traits(tree);
    let p = |t: Seq<char>| sites.contains(Some(t));
    lemma_filter_increasing(changed, p);
    let used = used_traits(changed, sites);
    assert(file_dyn(changed)(file, tree)[i] == dyn_finding(file, used[i]));
    assert(file_dyn(changed)(file, tree)[j] == dyn_finding(file, used[j]));
}

proof fn lemma_filter_increasing(s: Seq<Seq<char>>, p: spec_fn(Seq<char>) -> bool)
    requires
        crate::names::increasing(s),
    ensures
        crate::names::increasing(s.filter(p)),
    decreases s.len(),
{
    reveal(Seq::filter);
    if s.len() > 0 {
        let d = s.drop_last();
        assert(crate::names::increasing(d)) by {
            assert forall|a: int, b: int| #![trigger d[a], d[b]] 0 <= a < b < d.len() implies crate::text::text_lt(
                d[a],
                d[b],
            ) by {
                assert(crate::text::text_lt(s[a], s[b]));
            }
        }
        lemma_filter_increasing(d, p);
        let r = s.filter(p);
        let rest = d.filter(p);
        if p(s.last()) {
            assert forall|a: int, b: int| #![trigger r[a], r[b]] 0 <= a < b < r.len() implies crate::text::text_lt(
                r[a],
                r[b],
            ) by {
                if b == rest.len() {
                    assert(rest.contains(rest[a]));
                    lemma_filter_member(d, p, rest[a]);
                    let k = d.index_of(rest[a]);
                    assert(crate::text::text_lt(s[k], s[s.len() - 1]));
                } else {
                    assert(r[a] == rest[a] && r[b] == rest[b]);
                }
            }
        }
    }
}

/// The finding tells of the trait and of the file, and is a likely one.
pub proof fn dyn_findings_tell_of_trait_and_file(file: Seq<char>, t: Seq<char>)
    ensures
        dyn_finding(file, t).kind == (KindView::DynDispatch {
            trait_name: t,
            site: LocationView { file, symbol: "dyn "@ + t },
        }),
        dyn_finding(file, t).tier == Tier::Likely,
        dyn_finding(file, t).confidence == 75,
{
}

/// A finding for a `dyn` type is of medium severity, and its evidence names the
/// trait.
pub proof fn dyn_evidence_names_the_trait(file: Seq<char>, t: Seq<char>)
    ensures
        dyn_finding(file, t).severity is Medium,
        dyn_finding(file, t).suggested_action is None,
        crate::text::holds(dyn_finding(file, t).evidence, "dyn "@ + t),
{
    broadcast use crate::text::group_holds;

    reveal_strlit("`");
    reveal_strlit("dyn ");
    reveal_strlit("`dyn ");
    assert("`dyn "@ =~= "`"@ + "dyn "@);
    let rest = "` used in this file — concrete impl resolves at runtime, static analysis cannot predict which"@;
    assert(dyn_finding(file, t).evidence =~= "`"@ + ("dyn "@ + t) + rest);
}

} // verus!
