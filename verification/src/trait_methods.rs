//! What changed about a trait: which methods, and how.
//!
//! Two versions of a trait are compared method by method. A trait that is in
//! only one of them is no change here: the item diff reports it.
use crate::cfg::{parse_and_filter, visible_items, FeatureSet, FeaturesView};
use crate::diff::opt_str;
use crate::finding::{
    new_finding, opt_text, Finding, FindingKind, FindingView, KindView, TraitChange,
};
use crate::names::increasing;
use crate::symbols::{walk, walk_views, walked};
use crate::syntax::{
    item_node, item_nodes, method_views, BodyView, ItemBody, ItemKind, ItemView, MethodNode,
    MethodView, SourceItem,
};
use crate::text::{join, joined, same};
use crate::textmap::{
    keys, lookup, put, putting_sets_one_key, set_values_come_back, values_are_those_of_entries, TextMap,
};
use vstd::prelude::*;
use vstd::string::*;

verus! {

/// A change to a trait in a file.
#[derive(Debug, PartialEq, Eq)]
pub struct TraitChangeRecord {
    pub trait_name: String,
    pub file: String,
    pub method: Option<String>,
    pub change: TraitChange,
}

/// A [`TraitChangeRecord`] as plain data.
pub struct RecordView {
    pub trait_name: Seq<char>,
    pub file: Seq<char>,
    pub method: Option<Seq<char>>,
    pub change: TraitChange,
}

impl View for TraitChangeRecord {
    type V = RecordView;

    open spec fn view(&self) -> RecordView {
        RecordView {
            trait_name: self.trait_name@,
            file: self.file@,
            method: opt_text(self.method),
            change: self.change,
        }
    }
}

/// Records as plain data.
pub open spec fn record_views(s: Seq<TraitChangeRecord>) -> Seq<RecordView> {
    s.map_values(|r: TraitChangeRecord| r@)
}

/// Evidence for a trait change.
pub open spec fn record_evidence(r: RecordView) -> Seq<char> {
    match r.method {
        Some(m) => "trait `"@ + r.trait_name + "`: "@ + r.change.phrase_spec() + " — method `"@ + m
            + "` ("@ + r.file + ")"@,
        None => "trait `"@ + r.trait_name + "`: "@ + r.change.phrase_spec() + " ("@ + r.file
            + ")"@,
    }
}

/// The finding for a trait change: tier, confidence and severity come from the
/// kind of change.
pub open spec fn record_finding(r: RecordView) -> FindingView {
    FindingView {
        severity: r.change.severity_spec(),
        ..new_finding(
            ""@,
            r.change.tier_spec(),
            r.change.confidence_spec(),
            KindView::TraitDefinitionChange {
                trait_name: r.trait_name,
                file: r.file,
                method: r.method,
                change: r.change,
            },
            record_evidence(r),
        )
    }
}

impl TraitChangeRecord {
    /// The finding for this change.
    pub fn into_finding(self) -> (r: Finding)
        ensures
            r@ == record_finding(self@),
    {
        let tier = self.change.tier();
        let confidence = self.change.confidence();
        let severity = self.change.severity();
        let mut evidence = "trait `".to_owned();
        evidence.append(self.trait_name.as_str());
        evidence.append("`: ");
        evidence.append(self.change.phrase());
        match &self.method {
            Some(m) => {
                evidence.append(" — method `");
                evidence.append(m.as_str());
                evidence.append("` (");
            },
            None => {
                evidence.append(" (");
            },
        }
        evidence.append(self.file.as_str());
        evidence.append(")");
        let kind = FindingKind::TraitDefinitionChange {
            trait_name: self.trait_name,
            file: self.file,
            method: self.method,
            change: self.change,
        };
        Finding::new("", tier, confidence, kind, evidence.as_str()).with_severity(severity)
    }
}

/// Methods by name.
pub type MethodMap = Seq<(Seq<char>, MethodView)>;

/// The methods among the items of a trait, by name.
pub open spec fn method_map(methods: Seq<Option<MethodView>>) -> MethodMap
    decreases methods.len(),
{
    if methods.len() == 0 {
        Seq::empty()
    } else {
        let rest = method_map(methods.drop_last());
        match methods.last() {
            Some(m) => put(rest, m.name, m),
            None => rest,
        }
    }
}

/// The methods among the items of a trait, by name.
fn methods_map<'a>(methods: &'a Vec<Option<MethodNode>>) -> (r: TextMap<&'a MethodNode>)
    ensures
        r@ == method_map(method_views(methods@)),
{
    let ghost all = method_views(methods@);
    let mut out: TextMap<&'a MethodNode> = TextMap::new();
    let mut i: usize = 0;
    while i < methods.len()
        invariant
            i <= methods@.len(),
            all == method_views(methods@),
            out@ == method_map(all.take(i as int)),
        decreases methods@.len() - i,
    {
        proof {
            assert(all.take(i + 1).drop_last() =~= all.take(i as int));
            assert(all.take(i + 1).last() == all[i as int]);
        }
        match &methods[i] {
            Some(m) => {
                out.insert(m.name.as_str(), m);
            },
            None => {},
        }
        i = i + 1;
    }
    proof {
        assert(all.take(methods@.len() as int) =~= all);
    }
    out
}

/// Text of a default body; empty where there is none.
pub open spec fn body_text(m: MethodView) -> Seq<char> {
    match m.body {
        Some(b) => b,
        None => ""@,
    }
}

/// What changed about a method of the new version. A new method is required or
/// has a default; an old one has another signature, or only another default
/// body.
pub open spec fn method_change(old: MethodMap, m: MethodView) -> Option<TraitChange> {
    match lookup(old, m.name) {
        None => Some(
            if m.body is Some {
                TraitChange::DefaultMethodAdded
            } else {
                TraitChange::RequiredMethodAdded
            },
        ),
        Some(o) => if m.sig != o.sig {
            Some(TraitChange::RequiredMethodSignatureChanged)
        } else if body_text(m) != body_text(o) && (m.body is Some || o.body is Some) {
            Some(TraitChange::DefaultMethodBodyChanged)
        } else {
            None
        },
    }
}

/// A record for a method.
pub open spec fn method_record(
    name: Seq<char>,
    file: Seq<char>,
    method: Seq<char>,
    change: TraitChange,
) -> RecordView {
    RecordView { trait_name: name, file, method: Some(method), change }
}

/// Changes of the first `n` methods of the new version.
pub open spec fn new_records(
    name: Seq<char>,
    file: Seq<char>,
    old: MethodMap,
    new: MethodMap,
    n: nat,
) -> Seq<RecordView>
    decreases n,
{
    if n == 0 {
        Seq::empty()
    } else {
        let rest = new_records(name, file, old, new, (n - 1) as nat);
        let e = new[n - 1];
        match method_change(old, MethodView { name: e.0, ..e.1 }) {
            Some(c) => rest.push(method_record(name, file, e.0, c)),
            None => rest,
        }
    }
}

/// Removals among the first `n` methods of the old version.
pub open spec fn removed_records(
    name: Seq<char>,
    file: Seq<char>,
    old: MethodMap,
    new: MethodMap,
    n: nat,
) -> Seq<RecordView>
    decreases n,
{
    if n == 0 {
        Seq::empty()
    } else {
        let rest = removed_records(name, file, old, new, (n - 1) as nat);
        if lookup(new, old[n - 1].0) is None {
            rest.push(method_record(name, file, old[n - 1].0, TraitChange::MethodRemoved))
        } else {
            rest
        }
    }
}

/// The trait without its methods: unsafety, auto marker, generics, supertraits,
/// where clause.
pub open spec fn frame_text(frame: Seq<Seq<char>>) -> Seq<char> {
    joined(frame, "|"@)
}

/// What is compared of a trait: its items and its frame.
pub open spec fn trait_parts(item: ItemView) -> (Seq<Option<MethodView>>, Seq<Seq<char>>) {
    match item.body {
        BodyView::Leaf(l) => (l.methods, l.frame),
        _ => (Seq::empty(), Seq::empty()),
    }
}

/// What changed between two versions of a trait: new and changed methods,
/// removed methods, then the frame.
pub open spec fn trait_records(
    name: Seq<char>,
    file: Seq<char>,
    head: ItemView,
    wt: ItemView,
) -> Seq<RecordView> {
    let old = method_map(trait_parts(head).0);
    let new = method_map(trait_parts(wt).0);
    let methods = new_records(name, file, old, new, new.len()) + removed_records(
        name,
        file,
        old,
        new,
        old.len(),
    );
    if frame_text(trait_parts(head).1) != frame_text(trait_parts(wt).1) {
        methods.push(
            RecordView {
                trait_name: name,
                file,
                method: None,
                change: TraitChange::SupertraitOrBoundChanged,
            },
        )
    } else {
        methods
    }
}

/// What changed about a method of the new version.
fn classify_method(old: &TextMap<&MethodNode>, name: &str, m: &MethodNode) -> (r: Option<
    TraitChange,
>)
    ensures
        r == method_change(old@, MethodView { name: name@, ..m@ }),
{
    match old.get(name) {
        None => Some(
            if m.body.is_some() {
                TraitChange::DefaultMethodAdded
            } else {
                TraitChange::RequiredMethodAdded
            },
        ),
        Some(o) => {
            if !same(m.sig.as_str(), o.sig.as_str()) {
                return Some(TraitChange::RequiredMethodSignatureChanged);
            }
            let new_body = match &m.body {
                Some(b) => b.as_str(),
                None => "",
            };
            let old_body = match &o.body {
                Some(b) => b.as_str(),
                None => "",
            };
            if !same(new_body, old_body) && (m.body.is_some() || o.body.is_some()) {
                Some(TraitChange::DefaultMethodBodyChanged)
            } else {
                None
            }
        },
    }
}

fn leaf_methods(item: &SourceItem) -> (r: Option<&Vec<Option<MethodNode>>>)
    ensures
        match r {
            Some(v) => trait_parts(item@).0 == method_views(v@),
            None => trait_parts(item@).0.len() == 0,
        },
{
    match &item.body {
        ItemBody::Leaf(l) => Some(&l.methods),
        _ => None,
    }
}

fn leaf_frame(item: &SourceItem) -> (r: String)
    ensures
        r@ == frame_text(trait_parts(item@).1),
{
    match &item.body {
        ItemBody::Leaf(l) => join(&l.frame, "|"),
        _ => {
            proof {
                reveal_strlit("");
            }
            String::new()
        },
    }
}

/// What changed between two versions of a trait.
pub fn diff_trait(name: &str, head: &SourceItem, wt: &SourceItem, file: &str) -> (r: Vec<
    TraitChangeRecord,
>)
    ensures
        record_views(r@) == trait_records(name@, file@, head@, wt@),
{
    let none: Vec<Option<MethodNode>> = Vec::new();
    proof {
        assert(method_views(none@) =~= Seq::empty());
    }
    let old_methods = match leaf_methods(head) {
        Some(v) => v,
        None => {
            proof {
                assert(trait_parts(head@).0 =~= method_views(none@));
            }
            &none
        },
    };
    let new_methods = match leaf_methods(wt) {
        Some(v) => v,
        None => {
            proof {
                assert(trait_parts(wt@).0 =~= method_views(none@));
            }
            &none
        },
    };
    let old = methods_map(old_methods);
    let new = methods_map(new_methods);
    let mut out: Vec<TraitChangeRecord> = Vec::new();
    let mut i: usize = 0;
    proof {
        assert(record_views(out@) =~= Seq::empty());
    }
    while i < new.entries.len()
        invariant
            i <= new.entries@.len(),
            record_views(out@) == new_records(name@, file@, old@, new@, i as nat),
        decreases new.entries@.len() - i,
    {
        proof {
            assert(new@[i as int] == (
                new.entries@[i as int].0@,
                new.entries@[i as int].1@,
            ));
        }
        match classify_method(&old, new.entries[i].0.as_str(), new.entries[i].1) {
            Some(change) => {
                let record = TraitChangeRecord {
                    trait_name: name.to_owned(),
                    file: file.to_owned(),
                    method: Some(new.entries[i].0.clone()),
                    change,
                };
                proof {
                    assert(record_views(out@.push(record)) =~= record_views(out@).push(record@));
                }
                out.push(record);
            },
            None => {},
        }
        i = i + 1;
    }
    let ghost first = new_records(name@, file@, old@, new@, new@.len());
    let mut k: usize = 0;
    proof {
        assert(first + removed_records(name@, file@, old@, new@, 0) =~= first);
    }
    while k < old.entries.len()
        invariant
            k <= old.entries@.len(),
            record_views(out@) == first + removed_records(name@, file@, old@, new@, k as nat),
        decreases old.entries@.len() - k,
    {
        proof {
            assert(old@[k as int].0 == old.entries@[k as int].0@);
        }
        if new.get(old.entries[k].0.as_str()).is_none() {
            let record = TraitChangeRecord {
                trait_name: name.to_owned(),
                file: file.to_owned(),
                method: Some(old.entries[k].0.clone()),
                change: TraitChange::MethodRemoved,
            };
            proof {
                let rest = removed_records(name@, file@, old@, new@, k as nat);
                assert(record_views(out@.push(record)) =~= record_views(out@).push(record@));
                assert((first + rest).push(record@) =~= first + rest.push(record@));
            }
            out.push(record);
        }
        k = k + 1;
    }
    let head_frame = leaf_frame(head);
    let wt_frame = leaf_frame(wt);
    if !same(head_frame.as_str(), wt_frame.as_str()) {
        let record = TraitChangeRecord {
            trait_name: name.to_owned(),
            file: file.to_owned(),
            method: None,
            change: TraitChange::SupertraitOrBoundChanged,
        };
        proof {
            assert(record_views(out@.push(record)) =~= record_views(out@).push(record@));
        }
        out.push(record);
    }
    out
}

/// Traits by name.
pub type TraitMap = Seq<(Seq<char>, ItemView)>;

/// The traits among walked items, by name.
pub open spec fn trait_map(w: Seq<(Seq<char>, ItemView)>) -> TraitMap
    decreases w.len(),
{
    if w.len() == 0 {
        Seq::empty()
    } else {
        let rest = trait_map(w.drop_last());
        let item = w.last().1;
        match (item.kind, item.name) {
            (ItemKind::Trait, Some(n)) => put(rest, n, item),
            _ => rest,
        }
    }
}

/// The traits of a file by name, in modules too.
fn extract_traits<'a>(items: &'a Vec<SourceItem>) -> (r: TextMap<&'a SourceItem>)
    ensures
        r@ == trait_map(walked(item_nodes(items@), ""@)),
{
    let all = walk(items, "");
    let ghost w = walk_views(all@);
    let mut out: TextMap<&'a SourceItem> = TextMap::new();
    let mut i: usize = 0;
    while i < all.len()
        invariant
            i <= all@.len(),
            w == walk_views(all@),
            out@ == trait_map(w.take(i as int)),
        decreases all@.len() - i,
    {
        proof {
            assert(w.take(i + 1).drop_last() =~= w.take(i as int));
            assert(w.take(i + 1).last() == w[i as int]);
            assert(w[i as int].1 == item_node(*all@[i as int].1));
        }
        let item = all[i].1;
        match (item.kind, &item.name) {
            (ItemKind::Trait, Some(n)) => {
                out.insert(n.as_str(), item);
            },
            _ => {},
        }
        i = i + 1;
    }
    proof {
        assert(w.take(all@.len() as int) =~= w);
    }
    out
}

/// Changes of the first `n` traits of the new version that are in both.
pub open spec fn all_records(file: Seq<char>, old: TraitMap, new: TraitMap, n: nat) -> Seq<RecordView>
    decreases n,
{
    if n == 0 {
        Seq::empty()
    } else {
        let rest = all_records(file, old, new, (n - 1) as nat);
        match lookup(old, new[n - 1].0) {
            Some(h) => rest + trait_records(new[n - 1].0, file, h, new[n - 1].1),
            None => rest,
        }
    }
}

/// The trait changes between the items of two versions of a file.
pub open spec fn item_records(old: Seq<ItemView>, new: Seq<ItemView>, file: Seq<char>) -> Seq<
    RecordView,
> {
    let m = trait_map(walked(new, ""@));
    all_records(file, trait_map(walked(old, ""@)), m, m.len())
}

/// The trait changes of a file; none unless it is in both versions and both
/// parse.
pub open spec fn file_records(
    wt: Option<Seq<char>>,
    head: Option<Seq<char>>,
    file: Seq<char>,
    f: FeaturesView,
) -> Seq<RecordView> {
    match (wt, head) {
        (Some(w), Some(h)) => match (visible_items(w, f), visible_items(h, f)) {
            (Some(new), Some(old)) => item_records(old, new, file),
            _ => Seq::empty(),
        },
        _ => Seq::empty(),
    }
}

/// The trait changes between the items of two versions of a file.
pub fn compare_traits(
    old_items: &Vec<SourceItem>,
    new_items: &Vec<SourceItem>,
    file: &str,
) -> (r: Vec<TraitChangeRecord>)
    ensures
        record_views(r@) == item_records(item_nodes(old_items@), item_nodes(new_items@), file@),
{
    let mut out: Vec<TraitChangeRecord> = Vec::new();
    proof {
        assert(record_views(out@) =~= Seq::empty());
    }
    let old = extract_traits(old_items);
    let new = extract_traits(new_items);
    let mut i: usize = 0;
    while i < new.entries.len()
        invariant
            i <= new.entries@.len(),
            record_views(out@) == all_records(file@, old@, new@, i as nat),
        decreases new.entries@.len() - i,
    {
        proof {
            assert(new@[i as int] == (
                new.entries@[i as int].0@,
                new.entries@[i as int].1@,
            ));
        }
        match old.get(new.entries[i].0.as_str()) {
            Some(head_trait) => {
                let mut more = diff_trait(
                    new.entries[i].0.as_str(),
                    head_trait,
                    new.entries[i].1,
                    file,
                );
                let ghost before = out@;
                let ghost added = more@;
                out.append(&mut more);
                proof {
                    assert(record_views(out@) =~= record_views(before) + record_views(added));
                }
            },
            None => {},
        }
        i = i + 1;
    }
    out
}

/// The trait changes between two versions of a file.
pub fn classify_changes_in_file(
    wt: Option<&str>,
    head: Option<&str>,
    file: &str,
    features: &FeatureSet,
) -> (r: Vec<TraitChangeRecord>)
    ensures
        record_views(r@) == file_records(opt_str(wt), opt_str(head), file@, features@),
{
    let out: Vec<TraitChangeRecord> = Vec::new();
    proof {
        assert(record_views(out@) =~= Seq::empty());
    }
    let (w, h) = match (wt, head) {
        (Some(w), Some(h)) => (w, h),
        _ => {
            return out;
        },
    };
    let new = match parse_and_filter(w, features) {
        Some(tree) => tree.items,
        None => {
            return out;
        },
    };
    let old = match parse_and_filter(h, features) {
        Some(tree) => tree.items,
        None => {
            return out;
        },
    };
    compare_traits(&old, &new, file)
}

// ---------------------------------------------------------------------------
// Laws
// ---------------------------------------------------------------------------

proof fn lemma_method_map(methods: Seq<Option<MethodView>>)
    ensures
        increasing(keys(method_map(methods))),
        forall|i: int|
            0 <= i < method_map(methods).len() ==> (#[trigger] method_map(methods)[i]).0
                == method_map(methods)[i].1.name,
    decreases methods.len(),
{
    if methods.len() > 0 {
        let rest = method_map(methods.drop_last());
        lemma_method_map(methods.drop_last());
        match methods.last() {
            Some(m) => {
                putting_sets_one_key(rest, m.name, m);
                lemma_put_names(rest, m);
            },
            None => {},
        }
    } else {
        assert(keys(method_map(methods)) =~= Seq::empty());
    }
}

proof fn lemma_put_names(s: MethodMap, m: MethodView)
    requires
        forall|i: int| 0 <= i < s.len() ==> (#[trigger] s[i]).0 == s[i].1.name,
    ensures
        forall|i: int|
            0 <= i < put(s, m.name, m).len() ==> (#[trigger] put(s, m.name, m)[i]).0 == put(
                s,
                m.name,
                m,
            )[i].1.name,
    decreases s.len(),
{
    let r = put(s, m.name, m);
    if s.len() == 0 || s[0].0 == m.name {
    } else if crate::text::text_lt(m.name, s[0].0) {
        assert forall|i: int| 0 <= i < r.len() implies (#[trigger] r[i]).0 == r[i].1.name by {
            if i > 0 {
                assert(r[i] == s[i - 1]);
            }
        }
    } else {
        let rest = s.skip(1);
        assert forall|i: int| 0 <= i < rest.len() implies (#[trigger] rest[i]).0 == rest[i].1.name by {
            assert(rest[i] == s[i + 1]);
        }
        lemma_put_names(rest, m);
        assert forall|i: int| 0 <= i < r.len() implies (#[trigger] r[i]).0 == r[i].1.name by {
            if i > 0 {
                assert(r[i] == put(rest, m.name, m)[i - 1]);
            }
        }
    }
}

/// A trait compared with itself has no changes.
pub proof fn equal_traits_have_no_changes(name: Seq<char>, file: Seq<char>, item: ItemView)
    ensures
        trait_records(name, file, item, item).len() == 0,
{
    let m = method_map(trait_parts(item).0);
    lemma_method_map(trait_parts(item).0);
    lemma_no_records(name, file, m, m.len());
}

proof fn lemma_no_records(name: Seq<char>, file: Seq<char>, m: MethodMap, n: nat)
    requires
        increasing(keys(m)),
        n <= m.len(),
        forall|i: int| 0 <= i < m.len() ==> (#[trigger] m[i]).0 == m[i].1.name,
    ensures
        new_records(name, file, m, m, n).len() == 0,
        removed_records(name, file, m, m, n).len() == 0,
    decreases n,
{
    if n > 0 {
        lemma_no_records(name, file, m, (n - 1) as nat);
        crate::diff::lemma_lookup_self(m, n - 1);
        assert(m[n - 1].0 == m[n - 1].1.name);
    }
}

proof fn lemma_joined_differ(a: Seq<Seq<char>>, b: Seq<Seq<char>>, sep: Seq<char>, i: int)
    requires
        a.len() == b.len(),
        0 <= i < a.len(),
        a[i] != b[i],
        forall|j: int| 0 <= j < a.len() && j != i ==> #[trigger] a[j] == b[j],
    ensures
        joined(a, sep) != joined(b, sep),
    decreases a.len(),
{
    if a.len() > 1 {
        let n = a.len() - 1;
        let x = joined(a.drop_last(), sep);
        let y = joined(b.drop_last(), sep);
        let u = x + sep + a.last();
        let v = y + sep + b.last();
        if i == n {
            assert(a.drop_last() =~= b.drop_last());
            if u == v {
                let k = (x + sep).len() as int;
                assert(u.skip(k) =~= a.last());
                assert(v.skip(k) =~= b.last());
            }
        } else {
            assert(a[n] == b[n]);
            assert(a.last() == b.last());
            lemma_joined_differ(a.drop_last(), b.drop_last(), sep, i);
            if u == v {
                assert(u.len() == x.len() + sep.len() + a.last().len());
                assert(v.len() == y.len() + sep.len() + b.last().len());
                assert(u.take(x.len() as int) =~= x);
                assert(v.take(x.len() as int) =~= y);
            }
        }
    }
}

/// Two traits that differ in one part of their frame alone, be it the generics,
/// the supertraits, the where clause or a keyword, have exactly one change, and
/// it is none of a method.
pub proof fn every_part_of_a_frame_counts(
    name: Seq<char>,
    file: Seq<char>,
    head: ItemView,
    wt: ItemView,
    i: int,
)
    requires
        trait_parts(head).0 == trait_parts(wt).0,
        trait_parts(head).1.len() == trait_parts(wt).1.len(),
        0 <= i < trait_parts(head).1.len(),
        trait_parts(head).1[i] != trait_parts(wt).1[i],
        forall|j: int|
            0 <= j < trait_parts(head).1.len() && j != i ==> #[trigger] trait_parts(head).1[j]
                == trait_parts(wt).1[j],
    ensures
        trait_records(name, file, head, wt) == seq![
            RecordView {
                trait_name: name,
                file,
                method: None,
                change: TraitChange::SupertraitOrBoundChanged,
            },
        ],
{
    lemma_joined_differ(trait_parts(head).1, trait_parts(wt).1, "|"@, i);
    let m = method_map(trait_parts(head).0);
    lemma_method_map(trait_parts(head).0);
    lemma_no_records(name, file, m, m.len());
    assert(trait_records(name, file, head, wt) =~= seq![
        RecordView {
            trait_name: name,
            file,
            method: None,
            change: TraitChange::SupertraitOrBoundChanged,
        },
    ]);
}

/// No trait change claims more than `Likely`.
pub proof fn trait_changes_are_never_proven(r: RecordView)
    ensures
        record_finding(r).tier != crate::finding::Tier::Proven,
{
}

proof fn lemma_new_records(
    name: Seq<char>,
    file: Seq<char>,
    old: MethodMap,
    new: MethodMap,
    n: nat,
    r: RecordView,
)
    requires
        n <= new.len(),
    ensures
        new_records(name, file, old, new, n).contains(r) <==> r.trait_name == name && r.file == file
            && exists|i: int|
            0 <= i < n && r.method == Some((#[trigger] new[i]).0) && method_change(
                old,
                MethodView { name: new[i].0, ..new[i].1 },
            ) == Some(r.change),
    decreases n,
{
    if n > 0 {
        let m = (n - 1) as nat;
        lemma_new_records(name, file, old, new, m, r);
        let rest = new_records(name, file, old, new, m);
        let e = new[n - 1];
        match method_change(old, MethodView { name: e.0, ..e.1 }) {
            Some(c) => {
                let x = method_record(name, file, e.0, c);
                assert(rest.push(x) =~= rest + seq![x]);
                crate::scan::lemma_contains_add(rest, seq![x], r);
                assert(seq![x][0] == x);
                assert(seq![x].contains(r) <==> r == x);
            },
            None => {},
        }
    }
}

proof fn lemma_removed_records(
    name: Seq<char>,
    file: Seq<char>,
    old: MethodMap,
    new: MethodMap,
    n: nat,
    r: RecordView,
)
    requires
        n <= old.len(),
    ensures
        removed_records(name, file, old, new, n).contains(r) <==> r.trait_name == name && r.file
            == file && r.change == TraitChange::MethodRemoved && exists|i: int|
            0 <= i < n && r.method == Some((#[trigger] old[i]).0) && lookup(new, old[i].0) is None,
    decreases n,
{
    if n > 0 {
        let m = (n - 1) as nat;
        lemma_removed_records(name, file, old, new, m, r);
        let rest = removed_records(name, file, old, new, m);
        if lookup(new, old[n - 1].0) is None {
            let x = method_record(name, file, old[n - 1].0, TraitChange::MethodRemoved);
            assert(rest.push(x) =~= rest + seq![x]);
            crate::scan::lemma_contains_add(rest, seq![x], r);
            assert(seq![x][0] == x);
            assert(seq![x].contains(r) <==> r == x);
        }
    }
}

/// The methods of a version of a trait, by name.
pub open spec fn methods_of(item: ItemView) -> MethodMap {
    method_map(trait_parts(item).0)
}

proof fn lemma_trait_records(
    name: Seq<char>,
    file: Seq<char>,
    head: ItemView,
    wt: ItemView,
    r: RecordView,
)
    ensures
        trait_records(name, file, head, wt).contains(r) <==> r.trait_name == name && r.file == file
            && match r.method {
            Some(k) => match (lookup(methods_of(wt), k), lookup(methods_of(head), k)) {
                (Some(m), _) => method_change(methods_of(head), MethodView { name: k, ..m })
                    == Some(r.change),
                (None, Some(_)) => r.change == TraitChange::MethodRemoved,
                (None, None) => false,
            },
            None => r.change == TraitChange::SupertraitOrBoundChanged && frame_text(
                trait_parts(head).1,
            ) != frame_text(trait_parts(wt).1),
        },
{
    let old = methods_of(head);
    let new = methods_of(wt);
    lemma_method_map(trait_parts(head).0);
    lemma_method_map(trait_parts(wt).0);
    let a = new_records(name, file, old, new, new.len());
    let b = removed_records(name, file, old, new, old.len());
    lemma_new_records(name, file, old, new, new.len(), r);
    lemma_removed_records(name, file, old, new, old.len(), r);
    crate::scan::lemma_contains_add(a, b, r);
    let x = RecordView {
        trait_name: name,
        file,
        method: None,
        change: TraitChange::SupertraitOrBoundChanged,
    };
    crate::scan::lemma_contains_add(a + b, seq![x], r);
    assert((a + b).push(x) =~= a + b + seq![x]);
    assert(seq![x][0] == x);
    assert(seq![x].contains(r) <==> r == x);
    match r.method {
        Some(k) => {
            values_are_those_of_entries(new, k);
            values_are_those_of_entries(old, k);
            if a.contains(r) {
                let i = choose|i: int|
                    0 <= i < new.len() && r.method == Some((#[trigger] new[i]).0) && method_change(
                        old,
                        MethodView { name: new[i].0, ..new[i].1 },
                    ) == Some(r.change);
                assert(new[i].0 == k);
            }
            if b.contains(r) {
                let i = choose|i: int|
                    0 <= i < old.len() && r.method == Some((#[trigger] old[i]).0) && lookup(
                        new,
                        old[i].0,
                    ) is None;
                assert(old[i].0 == k);
            }
            if lookup(new, k) is Some {
                let j = choose|j: int|
                    0 <= j < new.len() && (#[trigger] new[j]).0 == k && lookup(new, k) == Some(
                        new[j].1,
                    );
                assert(new[j].0 == k);
            } else if lookup(old, k) is Some {
                let j = choose|j: int|
                    0 <= j < old.len() && (#[trigger] old[j]).0 == k && lookup(old, k) == Some(
                        old[j].1,
                    );
                assert(old[j].0 == k);
            }
        },
        None => {},
    }
}

/// What is reported of a method `k` of a trait. Where only the new version has
/// it, it is an added one, required or with a default. Where only the old version
/// has it, it is a removed one. Where both have it with different signatures, its
/// signature changed, with or without a default body; with the same signature,
/// its default body changed where the bodies differ. A method of neither is not
/// reported. A body that is not there counts as an empty one.
pub proof fn methods_are_compared_by_signature_then_body(
    name: Seq<char>,
    file: Seq<char>,
    head: ItemView,
    wt: ItemView,
    k: Seq<char>,
    c: TraitChange,
)
    ensures
        ({
            let new = lookup(methods_of(wt), k);
            let old = lookup(methods_of(head), k);
            let reported = trait_records(name, file, head, wt).contains(
                RecordView { trait_name: name, file, method: Some(k), change: c },
            );
            &&& new is None && old is None ==> !reported
            &&& new is None && old is Some ==> (reported <==> c == TraitChange::MethodRemoved)
            &&& new is Some && old is None && new->0.body is None ==> (reported <==> c
                == TraitChange::RequiredMethodAdded)
            &&& new is Some && old is None && new->0.body is Some ==> (reported <==> c
                == TraitChange::DefaultMethodAdded)
            &&& new is Some && old is Some && new->0.sig != old->0.sig ==> (reported <==> c
                == TraitChange::RequiredMethodSignatureChanged)
            &&& new is Some && old is Some && new->0.sig == old->0.sig && new->0.body == old->0.body
                ==> !reported
            &&& new is Some && old is Some && new->0.sig == old->0.sig && new->0.body is Some
                && old->0.body is Some && new->0.body != old->0.body ==> (reported <==> c
                == TraitChange::DefaultMethodBodyChanged)
            &&& new is Some && old is Some && new->0.sig == old->0.sig && new->0.body is Some
                && old->0.body is None ==> (reported <==> c == TraitChange::DefaultMethodBodyChanged
                && new->0.body->0.len() > 0)
            &&& new is Some && old is Some && new->0.sig == old->0.sig && new->0.body is None
                && old->0.body is Some ==> (reported <==> c == TraitChange::DefaultMethodBodyChanged
                && old->0.body->0.len() > 0)
        }),
{
    reveal_strlit("");
    let r = RecordView { trait_name: name, file, method: Some(k), change: c };
    lemma_trait_records(name, file, head, wt, r);
    let new = lookup(methods_of(wt), k);
    let old = lookup(methods_of(head), k);
    if new is Some && old is Some {
        let m = new->0;
        let o = old->0;
        if m.body is Some && m.body->0.len() == 0 {
            assert(m.body->0 =~= ""@);
        }
        if o.body is Some && o.body->0.len() == 0 {
            assert(o.body->0 =~= ""@);
        }
    }
}

/// Every record of a comparison names the trait and the file. The one that names
/// no method says that the frame changed, and is there where the frames differ.
pub proof fn frames_are_reported_apart_from_methods(
    name: Seq<char>,
    file: Seq<char>,
    head: ItemView,
    wt: ItemView,
    r: RecordView,
)
    requires
        trait_records(name, file, head, wt).contains(r),
    ensures
        r.trait_name == name,
        r.file == file,
        r.method is None <==> r.change == TraitChange::SupertraitOrBoundChanged,
        r.method is None ==> trait_parts(head).1 != trait_parts(wt).1,
{
    lemma_trait_records(name, file, head, wt, r);
}

proof fn lemma_new_records_order(
    name: Seq<char>,
    file: Seq<char>,
    old: MethodMap,
    new: MethodMap,
    n: nat,
)
    requires
        increasing(keys(new)),
        n <= new.len(),
    ensures
        ({
            let s = new_records(name, file, old, new, n);
            forall|i: int, j: int|
                #![trigger s[i], s[j]]
                0 <= i < j < s.len() ==> crate::text::text_lt(
                    s[i].method.unwrap(),
                    s[j].method.unwrap(),
                )
        }),
    decreases n,
{
    if n > 0 {
        let m = (n - 1) as nat;
        lemma_new_records_order(name, file, old, new, m);
        let rest = new_records(name, file, old, new, m);
        let s = new_records(name, file, old, new, n);
        assert forall|i: int, j: int| #![trigger s[i], s[j]] 0 <= i < j < s.len() implies crate::text::text_lt(
            s[i].method.unwrap(),
            s[j].method.unwrap(),
        ) by {
            if j == rest.len() {
                assert(rest.contains(rest[i]));
                lemma_new_records(name, file, old, new, m, rest[i]);
                let k = choose|k: int|
                    0 <= k < m && rest[i].method == Some((#[trigger] new[k]).0) && method_change(
                        old,
                        MethodView { name: new[k].0, ..new[k].1 },
                    ) == Some(rest[i].change);
                assert(keys(new)[k] == new[k].0);
                assert(keys(new)[n - 1] == new[n - 1].0);
            } else {
                assert(s[i] == rest[i] && s[j] == rest[j]);
            }
        }
    }
}

proof fn lemma_removed_records_order(
    name: Seq<char>,
    file: Seq<char>,
    old: MethodMap,
    new: MethodMap,
    n: nat,
)
    requires
        increasing(keys(old)),
        n <= old.len(),
    ensures
        ({
            let s = removed_records(name, file, old, new, n);
            forall|i: int, j: int|
                #![trigger s[i], s[j]]
                0 <= i < j < s.len() ==> crate::text::text_lt(
                    s[i].method.unwrap(),
                    s[j].method.unwrap(),
                )
        }),
    decreases n,
{
    if n > 0 {
        let m = (n - 1) as nat;
        lemma_removed_records_order(name, file, old, new, m);
        let rest = removed_records(name, file, old, new, m);
        let s = removed_records(name, file, old, new, n);
        assert forall|i: int, j: int| #![trigger s[i], s[j]] 0 <= i < j < s.len() implies crate::text::text_lt(
            s[i].method.unwrap(),
            s[j].method.unwrap(),
        ) by {
            if j == rest.len() {
                assert(rest.contains(rest[i]));
                lemma_removed_records(name, file, old, new, m, rest[i]);
                let k = choose|k: int|
                    0 <= k < m && rest[i].method == Some((#[trigger] old[k]).0) && lookup(
                        new,
                        old[k].0,
                    ) is None;
                assert(keys(old)[k] == old[k].0);
                assert(keys(old)[n - 1] == old[n - 1].0);
            } else {
                assert(s[i] == rest[i] && s[j] == rest[j]);
            }
        }
    }
}

/// A comparison of two versions of a trait tells of no method twice, nor twice of
/// the frame.
pub proof fn each_method_is_reported_once(
    name: Seq<char>,
    file: Seq<char>,
    head: ItemView,
    wt: ItemView,
    i: int,
    j: int,
)
    requires
        0 <= i < j < trait_records(name, file, head, wt).len(),
    ensures
        trait_records(name, file, head, wt)[i].method != trait_records(name, file, head, wt)[j].method,
{
    let old = methods_of(head);
    let new = methods_of(wt);
    lemma_method_map(trait_parts(head).0);
    lemma_method_map(trait_parts(wt).0);
    let a = new_records(name, file, old, new, new.len());
    let b = removed_records(name, file, old, new, old.len());
    lemma_new_records_order(name, file, old, new, new.len());
    lemma_removed_records_order(name, file, old, new, old.len());
    let s = trait_records(name, file, head, wt);
    if i < a.len() {
        assert(s[i] == a[i]);
        assert(a.contains(a[i]));
        lemma_new_records(name, file, old, new, new.len(), a[i]);
    } else if i < a.len() + b.len() {
        assert(s[i] == b[i - a.len()]);
        assert(b.contains(b[i - a.len()]));
        lemma_removed_records(name, file, old, new, old.len(), b[i - a.len()]);
    }
    if j < a.len() {
        assert(s[j] == a[j]);
        assert(a.contains(a[j]));
        lemma_new_records(name, file, old, new, new.len(), a[j]);
        crate::text::lemma_text_lt_irreflexive(a[i].method.unwrap());
    } else if j < a.len() + b.len() {
        let y = b[j - a.len()];
        assert(s[j] == y);
        assert(b.contains(y));
        lemma_removed_records(name, file, old, new, old.len(), y);
        if i < a.len() {
            values_are_those_of_entries(new, y.method.unwrap());
        } else {
            crate::text::lemma_text_lt_irreflexive(b[i - a.len()].method.unwrap());
        }
    }
}

/// Under a name a trait has the last of its methods of that name, as it stands
/// among the items of the trait; items of other kinds are no methods.
pub proof fn methods_are_found_by_name(methods: Seq<Option<MethodView>>, k: Seq<char>)
    ensures
        match lookup(method_map(methods), k) {
            Some(m) => m.name == k && exists|i: int|
                0 <= i < methods.len() && (#[trigger] methods[i]) == Some(m) && forall|j: int|
                    i < j < methods.len() ==> (#[trigger] methods[j]) is None || methods[j]->0.name
                        != k,
            None => forall|i: int|
                0 <= i < methods.len() ==> (#[trigger] methods[i]) is None || methods[i]->0.name
                    != k,
        },
    decreases methods.len(),
{
    if methods.len() > 0 {
        let d = methods.drop_last();
        let n = methods.len() - 1;
        methods_are_found_by_name(d, k);
        assert(methods[n] == methods.last());
        assert forall|i: int| 0 <= i < d.len() implies #[trigger] d[i] == methods[i] by {}
        let below = method_map(d);
        if let Some(m) = methods.last() {
            set_values_come_back(below, m.name, m, k);
        }
        if !(methods.last() is Some && methods.last()->0.name == k) {
            assert(lookup(method_map(methods), k) == lookup(below, k));
            match lookup(below, k) {
                Some(m) => {
                    let i = choose|i: int|
                        0 <= i < d.len() && (#[trigger] d[i]) == Some(m) && forall|j: int|
                            i < j < d.len() ==> (#[trigger] d[j]) is None || d[j]->0.name != k;
                    assert(methods[i] == Some(m));
                    assert forall|j: int| i < j < methods.len() implies (#[trigger] methods[j])
                        is None || methods[j]->0.name != k by {
                        if j < n {
                            assert(d[j] == methods[j]);
                        }
                    }
                },
                None => {
                    assert forall|j: int| 0 <= j < methods.len() implies (#[trigger] methods[j])
                        is None || methods[j]->0.name != k by {
                        if j < n {
                            assert(d[j] == methods[j]);
                        }
                    }
                },
            }
        }
    }
}

/// Under a name a file has the last of its traits of that name, in a module or
/// not; what is no trait is not found.
pub proof fn traits_are_found_by_name(w: Seq<(Seq<char>, ItemView)>, k: Seq<char>)
    ensures
        increasing(keys(trait_map(w))),
        match lookup(trait_map(w), k) {
            Some(t) => exists|i: int|
                0 <= i < w.len() && (#[trigger] w[i]).1 == t && t.kind == ItemKind::Trait && t.name
                    == Some(k) && forall|j: int|
                    i < j < w.len() ==> !((#[trigger] w[j]).1.kind == ItemKind::Trait && w[j].1.name
                        == Some(k)),
            None => forall|i: int|
                0 <= i < w.len() ==> !((#[trigger] w[i]).1.kind == ItemKind::Trait && w[i].1.name
                    == Some(k)),
        },
    decreases w.len(),
{
    if w.len() > 0 {
        let d = w.drop_last();
        let n = w.len() - 1;
        let last = w.last().1;
        traits_are_found_by_name(d, k);
        assert(w[n] == w.last());
        assert forall|i: int| 0 <= i < d.len() implies #[trigger] d[i] == w[i] by {}
        let below = trait_map(d);
        if last.kind == ItemKind::Trait && last.name is Some {
            putting_sets_one_key(below, last.name->0, last);
        }
        if !(last.kind == ItemKind::Trait && last.name == Some(k)) {
            assert(lookup(trait_map(w), k) == lookup(below, k));
            match lookup(below, k) {
                Some(t) => {
                    let i = choose|i: int|
                        0 <= i < d.len() && (#[trigger] d[i]).1 == t && t.kind == ItemKind::Trait
                            && t.name == Some(k) && forall|j: int|
                            i < j < d.len() ==> !((#[trigger] d[j]).1.kind == ItemKind::Trait
                                && d[j].1.name == Some(k));
                    assert(w[i].1 == t);
                    assert forall|j: int| i < j < w.len() implies !((#[trigger] w[j]).1.kind
                        == ItemKind::Trait && w[j].1.name == Some(k)) by {
                        if j < n {
                            assert(d[j] == w[j]);
                        }
                    }
                },
                None => {
                    assert forall|j: int| 0 <= j < w.len() implies !((#[trigger] w[j]).1.kind
                        == ItemKind::Trait && w[j].1.name == Some(k)) by {
                        if j < n {
                            assert(d[j] == w[j]);
                        }
                    }
                },
            }
        } else {
            assert(lookup(trait_map(w), k) == Some(last));
        }
    } else {
        assert(keys(trait_map(w)) =~= Seq::empty());
    }
}

proof fn lemma_all_records(file: Seq<char>, old: TraitMap, new: TraitMap, n: nat, r: RecordView)
    requires
        n <= new.len(),
    ensures
        all_records(file, old, new, n).contains(r) <==> exists|i: int|
            0 <= i < n && lookup(old, (#[trigger] new[i]).0) is Some && trait_records(
                new[i].0,
                file,
                lookup(old, new[i].0)->0,
                new[i].1,
            ).contains(r),
    decreases n,
{
    if n > 0 {
        let m = (n - 1) as nat;
        lemma_all_records(file, old, new, m, r);
        if let Some(h) = lookup(old, new[n - 1].0) {
            crate::scan::lemma_contains_add(
                all_records(file, old, new, m),
                trait_records(new[n - 1].0, file, h, new[n - 1].1),
                r,
            );
        }
    }
}

/// Two versions of a file are compared trait by trait: what is reported is what
/// the comparison of a trait that both have reports. A trait of one version alone
/// is not reported.
pub proof fn files_are_compared_trait_by_trait(
    old: Seq<ItemView>,
    new: Seq<ItemView>,
    file: Seq<char>,
    r: RecordView,
)
    ensures
        ({
            let h = lookup(trait_map(walked(old, ""@)), r.trait_name);
            let w = lookup(trait_map(walked(new, ""@)), r.trait_name);
            item_records(old, new, file).contains(r) <==> h is Some && w is Some && trait_records(
                r.trait_name,
                file,
                h->0,
                w->0,
            ).contains(r)
        }),
{
    let a = trait_map(walked(old, ""@));
    let b = trait_map(walked(new, ""@));
    traits_are_found_by_name(walked(old, ""@), r.trait_name);
    traits_are_found_by_name(walked(new, ""@), r.trait_name);
    values_are_those_of_entries(a, r.trait_name);
    values_are_those_of_entries(b, r.trait_name);
    lemma_all_records(file, a, b, b.len(), r);
    if item_records(old, new, file).contains(r) {
        let i = choose|i: int|
            0 <= i < b.len() && lookup(a, (#[trigger] b[i]).0) is Some && trait_records(
                b[i].0,
                file,
                lookup(a, b[i].0)->0,
                b[i].1,
            ).contains(r);
        lemma_trait_records(b[i].0, file, lookup(a, b[i].0)->0, b[i].1, r);
        assert(b[i].0 == r.trait_name);
    }
    if lookup(a, r.trait_name) is Some && lookup(b, r.trait_name) is Some {
        let j = choose|j: int|
            0 <= j < b.len() && (#[trigger] b[j]).0 == r.trait_name && lookup(b, r.trait_name)
                == Some(b[j].1);
        assert(b[j].0 == r.trait_name);
    }
}

/// A change that can break an impl is graver than one of the frame, and that is
/// graver than one of a default; the surer the break, the greater the confidence.
/// The finding tells of the change it was made from.
pub proof fn breaking_changes_are_graver(r: RecordView)
    ensures
        ({
            let f = record_finding(r);
            let breaks = r.change == TraitChange::RequiredMethodAdded || r.change
                == TraitChange::RequiredMethodSignatureChanged || r.change
                == TraitChange::MethodRemoved;
            let frame = r.change == TraitChange::SupertraitOrBoundChanged;
            &&& f.severity == crate::finding::SeverityClass::High <==> breaks
            &&& f.severity == crate::finding::SeverityClass::Medium <==> frame
            &&& f.severity == crate::finding::SeverityClass::Low <==> !breaks && !frame
            &&& f.tier == crate::finding::Tier::Likely <==> breaks || frame
            &&& f.tier == crate::finding::Tier::Possible <==> !breaks && !frame
            &&& f.confidence == 95 <==> breaks && r.change != TraitChange::MethodRemoved
            &&& f.confidence == 90 <==> r.change == TraitChange::MethodRemoved
            &&& f.confidence == 75 <==> frame
            &&& f.confidence == 55 <==> r.change == TraitChange::DefaultMethodBodyChanged
            &&& f.confidence == 40 <==> r.change == TraitChange::DefaultMethodAdded
            &&& f.kind == KindView::TraitDefinitionChange {
                trait_name: r.trait_name,
                file: r.file,
                method: r.method,
                change: r.change,
            }
        }),
{
}

/// What is compared of a trait is what stands among its items and in its frame.
/// The frame is reported as changed exactly where its parts, one behind the
/// other, read differently.
pub proof fn frames_are_reported_where_they_differ(
    name: Seq<char>,
    file: Seq<char>,
    head: ItemView,
    wt: ItemView,
    a: crate::syntax::LeafView,
    b: crate::syntax::LeafView,
)
    requires
        head.body == BodyView::Leaf(a),
        wt.body == BodyView::Leaf(b),
    ensures
        methods_of(head) == method_map(a.methods),
        methods_of(wt) == method_map(b.methods),
        trait_records(name, file, head, wt).contains(
            RecordView {
                trait_name: name,
                file,
                method: None,
                change: TraitChange::SupertraitOrBoundChanged,
            },
        ) <==> joined(a.frame, "|"@) != joined(b.frame, "|"@),
{
    lemma_trait_records(
        name,
        file,
        head,
        wt,
        RecordView {
            trait_name: name,
            file,
            method: None,
            change: TraitChange::SupertraitOrBoundChanged,
        },
    );
}

/// Traits are compared where both versions of a file are there and parse.
pub proof fn traits_of_two_versions_are_compared(
    wt: Seq<char>,
    head: Seq<char>,
    file: Seq<char>,
    f: FeaturesView,
)
    ensures
        visible_items(wt, f) is Some && visible_items(head, f) is Some ==> file_records(
            Some(wt),
            Some(head),
            file,
            f,
        ) == item_records(visible_items(head, f)->0, visible_items(wt, f)->0, file),
        visible_items(wt, f) is None || visible_items(head, f) is None ==> file_records(
            Some(wt),
            Some(head),
            file,
            f,
        ).len() == 0,
        file_records(Some(wt), None, file, f).len() == 0,
        file_records(None, Some(head), file, f).len() == 0,
{
}

/// A finding for a trait change weighs as its change does; its evidence names the
/// trait, the change, the file and the method, where it is one of a method.
pub proof fn record_evidence_names_the_change(r: RecordView)
    ensures
        record_finding(r).kind == (KindView::TraitDefinitionChange {
            trait_name: r.trait_name,
            file: r.file,
            method: r.method,
            change: r.change,
        }),
        record_finding(r).severity == r.change.severity_spec(),
        record_finding(r).tier == r.change.tier_spec(),
        record_finding(r).confidence == r.change.confidence_spec(),
        crate::text::holds(record_finding(r).evidence, r.trait_name),
        crate::text::holds(record_finding(r).evidence, r.change.phrase_spec()),
        crate::text::holds(record_finding(r).evidence, r.file),
        r.method matches Some(m) ==> crate::text::holds(record_finding(r).evidence, m),
{
    broadcast use crate::text::group_holds;

}

} // verus!
