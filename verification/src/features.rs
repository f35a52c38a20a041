//! The active feature set of a run, resolved from a manifest and from flags.
use crate::cfg::{FeatureSet, FeaturesView};
use crate::finding::opt_text;
use crate::names::{lemma_name_set, name_set, NameSet};
use crate::order::lemma_filter_member;
use crate::syntax::opt_texts;
use crate::text::{
    begins, has_char, is_one_of, nonempty, only, pieces, same, split_on, starts_with, texts, trim,
    trimmed,
};
use vstd::prelude::*;

verus! {

/// `toml::de::Error`, opaque to the proofs.
#[verifier::external_type_specification]
#[verifier::external_body]
pub struct ExTomlError(toml::de::Error);

/// An entry of a table: its key, and the elements of its value where that is
/// an array, each where it is a string.
pub type TableEntry = (String, Option<Vec<Option<String>>>);

/// A [`TableEntry`] as plain data.
pub type EntryView = (Seq<char>, Option<Seq<Option<Seq<char>>>>);

/// Entries as plain data.
pub open spec fn entries(s: Seq<TableEntry>) -> Seq<EntryView> {
    s.map_values(|e: TableEntry| (e.0@, crate::syntax::opt_paths(e.1)))
}

/// An optional table as plain data.
pub open spec fn opt_entries(o: Option<Vec<TableEntry>>) -> Option<Seq<EntryView>> {
    match o {
        Some(v) => Some(entries(v@)),
        None => None,
    }
}

/// The table `key` of a TOML document: the outer `None` when the text is no
/// TOML document, the inner one when the document has no such table.
pub uninterp spec fn document_table(src: Seq<char>, key: Seq<char>) -> Option<
    Option<Seq<EntryView>>,
>;

/// `toml::from_str` as a `toml::Value`, then `Value::get` and
/// `Value::as_table`: a table of a TOML document, or an error when the text is
/// no TOML document. The result depends on the text and the key alone.
#[verifier::external_body]
fn read_table(src: &str, key: &str) -> (r: Result<Option<Vec<TableEntry>>, toml::de::Error>)
    ensures
        match r {
            Ok(t) => document_table(src@, key@) == Some(opt_entries(t)),
            Err(_) => document_table(src@, key@) is None,
        },
{
    let document: toml::Value = toml::from_str(src)?;
    let table = document.get(key).and_then(|v| v.as_table());
    Ok(table.map(|t| t.iter().map(|(k, v)| {
        let list = v.as_array().map(|a| a.iter().map(|s| s.as_str().map(String::from)).collect());
        (k.clone(), list)
    }).collect()))
}

/// Whether a feature string names a feature of the same crate, and no
/// dependency and no feature of one.
pub open spec fn same_crate(s: Seq<char>) -> bool {
    !begins(s, "dep:"@) && !s.contains('/')
}

/// The feature that a feature string names, where it is one of the same crate.
pub fn same_crate_feature_name(s: &str) -> (r: Option<String>)
    ensures
        match r {
            Some(t) => same_crate(s@) && t@ == s@,
            None => !same_crate(s@),
        },
{
    if starts_with(s, "dep:") || has_char(s, '/') {
        return None;
    }
    Some(s.to_owned())
}

/// The features of the same crate in a list of feature strings.
pub open spec fn own_features(s: Seq<Option<Seq<char>>>) -> Seq<Seq<char>> {
    s.filter(|o: Option<Seq<char>>| o is Some && same_crate(o->0)).map_values(
        |o: Option<Seq<char>>| o->0,
    )
}

fn own_names(list: &Vec<Option<String>>) -> (r: Vec<String>)
    ensures
        texts(r@) == own_features(opt_texts(list@)),
{
    let ghost all = opt_texts(list@);
    let ghost p = |o: Option<Seq<char>>| o is Some && same_crate(o->0);
    let ghost g = |o: Option<Seq<char>>| o->0;
    let mut out: Vec<String> = Vec::new();
    let mut i: usize = 0;
    proof {
        assert(all.take(0).filter(p) =~= Seq::empty()) by {
            reveal(Seq::filter);
        }
        assert(texts(out@) =~= all.take(0).filter(p).map_values(g));
    }
    while i < list.len()
        invariant
            i <= list@.len(),
            all == opt_texts(list@),
            p == (|o: Option<Seq<char>>| o is Some && same_crate(o->0)),
            g == (|o: Option<Seq<char>>| o->0),
            texts(out@) == all.take(i as int).filter(p).map_values(g),
        decreases list@.len() - i,
    {
        proof {
            crate::text::lemma_filter_step(all, p, i as int);
            assert(all[i as int] == opt_text(list@[i as int]));
        }
        match &list[i] {
            Some(s) => {
                match same_crate_feature_name(s.as_str()) {
                    Some(t) => {
                        proof {
                            let before = all.take(i as int).filter(p);
                            assert(texts(out@.push(t)) =~= texts(out@).push(t@));
                            assert(before.push(all[i as int]).map_values(g) =~= before.map_values(
                                g,
                            ).push(t@));
                        }
                        out.push(t);
                    },
                    None => {},
                }
            },
            None => {},
        }
        i = i + 1;
    }
    proof {
        assert(all.take(list@.len() as int) =~= all);
    }
    out
}

/// Position of the first entry with a key, or the number of entries.
pub open spec fn entry_at(t: Seq<EntryView>, key: Seq<char>, from: int) -> int
    decreases t.len() - from,
{
    if from >= t.len() {
        t.len() as int
    } else if t[from].0 == key {
        from
    } else {
        entry_at(t, key, from + 1)
    }
}

/// The features that an entry of the table turns on.
pub open spec fn implied(t: Seq<EntryView>, key: Seq<char>) -> Seq<Seq<char>> {
    let i = entry_at(t, key, 0);
    if 0 <= i < t.len() {
        match t[i].1 {
            Some(list) => own_features(list),
            None => Seq::empty(),
        }
    } else {
        Seq::empty()
    }
}

/// Bounds of [`entry_at`].
proof fn lemma_entry_at(t: Seq<EntryView>, key: Seq<char>, from: int)
    requires
        0 <= from <= t.len(),
    ensures
        from <= entry_at(t, key, from) <= t.len(),
    decreases t.len() - from,
{
    if from < t.len() && t[from].0 != key {
        lemma_entry_at(t, key, from + 1);
    }
}

fn implied_names(table: &Vec<TableEntry>, key: &str) -> (r: Vec<String>)
    ensures
        texts(r@) == implied(entries(table@), key@),
{
    let ghost t = entries(table@);
    let mut i: usize = 0;
    while i < table.len()
        invariant
            i <= table@.len(),
            t == entries(table@),
            entry_at(t, key@, 0) == entry_at(t, key@, i as int),
        decreases table@.len() - i,
    {
        proof {
            assert(t[i as int].0 == table@[i as int].0@);
            assert(t[i as int].1 == crate::syntax::opt_paths(table@[i as int].1));
        }
        if same(table[i].0.as_str(), key) {
            return match &table[i].1 {
                Some(list) => own_names(list),
                None => {
                    let none: Vec<String> = Vec::new();
                    proof {
                        assert(texts(none@) =~= Seq::empty());
                    }
                    none
                },
            };
        }
        i = i + 1;
    }
    let none: Vec<String> = Vec::new();
    proof {
        assert(texts(none@) =~= Seq::empty());
    }
    none
}

/// Whether a set of features holds, with each feature, all that it turns on.
pub open spec fn closed_under(t: Seq<EntryView>, s: Set<Seq<char>>) -> bool {
    forall|a: Seq<char>, b: Seq<char>|
        s.contains(a) && #[trigger] implied(t, a).contains(b) ==> #[trigger] s.contains(b)
}

/// `r` is the least set of features that holds `start` and is closed under the
/// table.
pub open spec fn is_expansion(t: Seq<EntryView>, start: Seq<Seq<char>>, r: Seq<Seq<char>>) -> bool {
    &&& forall|x: Seq<char>| #[trigger] start.contains(x) ==> r.contains(x)
    &&& closed_under(t, r.to_set())
    &&& forall|s: Set<Seq<char>>| #[trigger]
        closed_under(t, s) && (forall|x: Seq<char>| #[trigger] start.contains(x) ==> s.contains(x))
            ==> forall|x: Seq<char>| #[trigger] r.contains(x) ==> s.contains(x)
}

/// Two expansions of the same features hold the same features.
pub proof fn expansion_is_unique(
    t: Seq<EntryView>,
    start: Seq<Seq<char>>,
    a: Seq<Seq<char>>,
    b: Seq<Seq<char>>,
)
    requires
        is_expansion(t, start, a),
        is_expansion(t, start, b),
    ensures
        forall|x: Seq<char>| #[trigger] a.contains(x) <==> b.contains(x),
{
    assert forall|x: Seq<char>| #[trigger] a.contains(x) implies b.contains(x) by {
        assert(closed_under(t, b.to_set()));
        assert forall|y: Seq<char>| #[trigger] start.contains(y) implies b.to_set().contains(y) by {
            assert(b.contains(y));
        }
        assert(b.to_set().contains(x));
    }
    assert forall|x: Seq<char>| #[trigger] b.contains(x) implies a.contains(x) by {
        assert(closed_under(t, a.to_set()));
        assert forall|y: Seq<char>| #[trigger] start.contains(y) implies a.to_set().contains(y) by {
            assert(a.contains(y));
        }
        assert(a.to_set().contains(x));
    }
}

/// All features that the first `n` entries of a table turn on.
spec fn all_implied(t: Seq<EntryView>, n: nat) -> Seq<Seq<char>>
    decreases n,
{
    if n == 0 || n > t.len() {
        Seq::empty()
    } else {
        all_implied(t, (n - 1) as nat) + (match t[n - 1].1 {
            Some(list) => own_features(list),
            None => Seq::empty(),
        })
    }
}

proof fn lemma_all_implied(t: Seq<EntryView>, n: nat, i: int, x: Seq<char>)
    requires
        0 <= i < n <= t.len(),
        t[i].1 is Some,
        own_features(t[i].1->0).contains(x),
    ensures
        all_implied(t, n).contains(x),
    decreases n,
{
    let head = all_implied(t, (n - 1) as nat);
    let all = all_implied(t, n);
    if i == n - 1 {
        let own = own_features(t[i].1->0);
        let k = own.index_of(x);
        assert(all[head.len() + k] == x);
    } else {
        lemma_all_implied(t, (n - 1) as nat, i, x);
        let k = head.index_of(x);
        assert(all[k] == x);
    }
}

/// What a feature turns on is among all that the table turns on.
proof fn lemma_implied_known(t: Seq<EntryView>, key: Seq<char>, x: Seq<char>)
    requires
        implied(t, key).contains(x),
    ensures
        all_implied(t, t.len()).contains(x),
{
    lemma_entry_at(t, key, 0);
    let i = entry_at(t, key, 0);
    lemma_all_implied(t, t.len(), i, x);
}

/// A list without repetition, all of it in another list, is no longer than
/// that list.
proof fn lemma_distinct_len(a: Seq<Seq<char>>, b: Seq<Seq<char>>)
    requires
        a.no_duplicates(),
        forall|x: Seq<char>| #[trigger] a.contains(x) ==> b.contains(x),
    ensures
        a.len() <= b.len(),
{
    a.unique_seq_to_set();
    b.lemma_cardinality_of_set();
    assert(a.to_set().subset_of(b.to_set()));
    vstd::set_lib::lemma_len_subset(a.to_set(), b.to_set());
}

/// Adds to `order` what it lacks of `more`.
fn add_missing(order: &mut Vec<String>, more: &Vec<String>)
    requires
        texts(old(order)@).no_duplicates(),
    ensures
        texts(final(order)@).no_duplicates(),
        forall|x: Seq<char>| #[trigger]
            texts(final(order)@).contains(x) <==> (texts(old(order)@).contains(x) || texts(
                more@,
            ).contains(x)),
        old(order)@.len() <= final(order)@.len(),
        forall|j: int|
            0 <= j < old(order)@.len() ==> #[trigger] final(order)@[j] == old(order)@[j],
{
    let ghost start = order@;
    let ghost m = texts(more@);
    let mut k: usize = 0;
    while k < more.len()
        invariant
            k <= more@.len(),
            m == texts(more@),
            texts(order@).no_duplicates(),
            start.len() <= order@.len(),
            forall|j: int| 0 <= j < start.len() ==> #[trigger] order@[j] == start[j],
            forall|x: Seq<char>| #[trigger]
                texts(order@).contains(x) <==> (texts(start).contains(x) || m.take(
                    k as int,
                ).contains(x)),
        decreases more@.len() - k,
    {
        let ghost before = texts(order@);
        let ghost taken = m.take(k as int);
        let ghost next = m.take(k + 1);
        let ghost new = more@[k as int]@;
        proof {
            assert(next =~= taken.push(new));
            assert forall|x: Seq<char>| #[trigger] next.contains(x) <==> (taken.contains(x) || x == new) by {
                if taken.contains(x) {
                    let j = taken.index_of(x);
                    assert(next[j] == x);
                }
                if x == new {
                    assert(next[k as int] == x);
                }
                if next.contains(x) {
                    let j = next.index_of(x);
                    if j < k {
                        assert(taken[j] == x);
                    }
                }
            }
        }
        if !is_one_of(order, more[k].as_str()) {
            order.push(more[k].clone());
            proof {
                let after = texts(order@);
                assert(after =~= before.push(new));
                assert forall|x: Seq<char>| #[trigger] after.contains(x) <==> (before.contains(x) || x == new) by {
                    if before.contains(x) {
                        let j = before.index_of(x);
                        assert(after[j] == x);
                    }
                    if x == new {
                        assert(after[before.len() as int] == x);
                    }
                    if after.contains(x) {
                        let j = after.index_of(x);
                        if j < before.len() {
                            assert(before[j] == x);
                        }
                    }
                }
                assert(after.no_duplicates()) by {
                    assert forall|i: int, j: int|
                        0 <= i < after.len() && 0 <= j < after.len() && i != j implies after[i] != after[j] by {
                        if i < before.len() && j < before.len() {
                            assert(before[i] != before[j]);
                        } else {
                            let q = if i < before.len() { i } else { j };
                            assert(before.contains(before[q]));
                        }
                    }
                }
            }
        }
        k = k + 1;
    }
    proof {
        assert(m.take(more@.len() as int) =~= m);
    }
}

/// The features `start` with all that they turn on, directly or not.
pub fn expand_transitive(start: &Vec<String>, table: &Vec<TableEntry>) -> (r: Vec<String>)
    ensures
        is_expansion(entries(table@), texts(start@), texts(r@)),
{
    let ghost t = entries(table@);
    let ghost init = texts(start@);
    let ghost universe = init + all_implied(t, t.len());
    let mut order: Vec<String> = Vec::new();
    proof {
        assert(texts(order@) =~= Seq::empty());
    }
    add_missing(&mut order, start);
    proof {
        assert forall|x: Seq<char>| #[trigger] texts(order@).contains(x) implies universe.contains(x) by {
            let k = init.index_of(x);
            assert(universe[k] == x);
        }
        lemma_distinct_len(texts(order@), universe);
        assert forall|s: Set<Seq<char>>| #[trigger]
            closed_under(t, s) && (forall|x: Seq<char>| #[trigger]
                init.contains(x) ==> s.contains(x)) implies forall|x: Seq<char>| #[trigger]
            texts(order@).contains(x) ==> s.contains(x) by {
            assert forall|x: Seq<char>| #[trigger] texts(order@).contains(x) implies s.contains(x) by {
                assert(init.contains(x));
            }
        }
    }
    let mut i: usize = 0;
    while i < order.len()
        invariant
            i <= order@.len() <= universe.len(),
            t == entries(table@),
            init == texts(start@),
            universe == init + all_implied(t, t.len()),
            texts(order@).no_duplicates(),
            forall|x: Seq<char>| #[trigger] texts(order@).contains(x) ==> universe.contains(x),
            forall|x: Seq<char>| #[trigger] init.contains(x) ==> texts(order@).contains(x),
            forall|j: int, b: Seq<char>|
                0 <= j < i && #[trigger] implied(t, order@[j]@).contains(b) ==> texts(
                    order@,
                ).contains(b),
            forall|s: Set<Seq<char>>| #[trigger]
                closed_under(t, s) && (forall|x: Seq<char>| #[trigger]
                    init.contains(x) ==> s.contains(x)) ==> forall|x: Seq<char>| #[trigger]
                    texts(order@).contains(x) ==> s.contains(x),
        decreases universe.len() - i,
    {
        let more = implied_names(table, order[i].as_str());
        let ghost before = order@;
        let ghost name = order@[i as int]@;
        add_missing(&mut order, &more);
        proof {
            assert(texts(before)[i as int] == name);
            assert(texts(before).contains(name));
            assert forall|x: Seq<char>| #[trigger] texts(order@).contains(x) implies universe.contains(x) by {
                if !texts(before).contains(x) {
                    assert(implied(t, name).contains(x));
                    lemma_implied_known(t, name, x);
                    let k = all_implied(t, t.len()).index_of(x);
                    assert(universe[init.len() + k] == x);
                }
            }
            lemma_distinct_len(texts(order@), universe);
            assert forall|j: int, b: Seq<char>|
                0 <= j < i + 1 && #[trigger] implied(t, order@[j]@).contains(b) implies texts(
                order@,
            ).contains(b) by {
                assert(order@[j] == before[j]);
            }
            assert forall|s: Set<Seq<char>>| #[trigger]
                closed_under(t, s) && (forall|x: Seq<char>| #[trigger]
                    init.contains(x) ==> s.contains(x)) implies forall|x: Seq<char>| #[trigger]
                texts(order@).contains(x) ==> s.contains(x) by {
                assert forall|x: Seq<char>| #[trigger] texts(order@).contains(x) implies s.contains(x) by {
                    if !texts(before).contains(x) {
                        assert(s.contains(name));
                        assert(implied(t, name).contains(x));
                    }
                }
            }
        }
        i = i + 1;
    }
    proof {
        assert forall|a: Seq<char>, b: Seq<char>|
            texts(order@).to_set().contains(a) && #[trigger] implied(t, a).contains(b) implies #[trigger] texts(
            order@,
        ).to_set().contains(b) by {
            assert(texts(order@).contains(a));
            let j = texts(order@).index_of(a);
            assert(order@[j]@ == a);
        }
    }
    order
}

/// The words of a comma-separated list, without white space around them and
/// without the empty ones.
pub open spec fn listed(s: Seq<char>) -> Seq<Seq<char>> {
    nonempty(pieces(s, only(',')).map_values(|t: Seq<char>| trimmed(t)))
}

/// The features that the flags name: each flag is a comma-separated list.
pub open spec fn flag_features(flags: Seq<Seq<char>>) -> Seq<Seq<char>>
    decreases flags.len(),
{
    if flags.len() == 0 {
        Seq::empty()
    } else {
        flag_features(flags.drop_last()) + listed(flags.last())
    }
}

/// The features that the flags name.
pub fn split_flags(flags: &Vec<String>) -> (r: Vec<String>)
    ensures
        texts(r@) == flag_features(texts(flags@)),
{
    let ghost all = texts(flags@);
    let mut out: Vec<String> = Vec::new();
    let mut i: usize = 0;
    proof {
        assert(texts(out@) =~= flag_features(all.take(0)));
    }
    while i < flags.len()
        invariant
            i <= flags@.len(),
            all == texts(flags@),
            texts(out@) == flag_features(all.take(i as int)),
        decreases flags@.len() - i,
    {
        proof {
            assert(all.take(i + 1).drop_last() =~= all.take(i as int));
            assert(all.take(i + 1).last() == flags@[i as int]@);
        }
        let parts = split_on(flags[i].as_str(), ',');
        let ghost p = pieces(flags@[i as int]@, only(','));
        let mut trimmed_parts: Vec<String> = Vec::new();
        let mut k: usize = 0;
        while k < parts.len()
            invariant
                k <= parts@.len(),
                texts(parts@) == p,
                trimmed_parts@.len() == k,
                forall|j: int| 0 <= j < k ==> #[trigger] trimmed_parts@[j]@ == trimmed(p[j]),
            decreases parts@.len() - k,
        {
            proof {
                assert(p[k as int] == parts@[k as int]@);
            }
            trimmed_parts.push(trim(parts[k].as_str()));
            k = k + 1;
        }
        proof {
            assert(p.len() == parts@.len());
            assert(texts(trimmed_parts@) =~= p.map_values(|t: Seq<char>| trimmed(t)));
        }
        let mut words = crate::text::keep_nonempty(&trimmed_parts);
        let ghost before = out@;
        let ghost added = words@;
        out.append(&mut words);
        proof {
            assert(texts(out@) =~= texts(before) + texts(added));
        }
        i = i + 1;
    }
    proof {
        assert(all.take(flags@.len() as int) =~= all);
    }
    out
}

/// Whether a feature set is the one for a manifest's feature table and flags.
/// With every feature asked for, it is the keys of the table but for
/// `default`. Otherwise it is what the defaults, unless they are switched off,
/// and the named features turn on.
pub open spec fn resolves_to(
    table: Option<Seq<EntryView>>,
    user: Seq<Seq<char>>,
    no_default: bool,
    all_features: bool,
    r: FeaturesView,
) -> bool {
    let t: Seq<EntryView> = match table {
        Some(e) => e,
        None => Seq::empty(),
    };
    r matches FeaturesView::Exact(active) && crate::names::increasing(active) && if all_features {
        active == name_set(
            t.map_values(|e: EntryView| e.0).filter(|k: Seq<char>| k != "default"@),
        )
    } else if no_default {
        is_expansion(t, user, active)
    } else {
        is_expansion(t, implied(t, "default"@) + user, active)
    }
}

/// A list and its set of names are expansions of the same features.
proof fn lemma_expansion_set(t: Seq<EntryView>, start: Seq<Seq<char>>, r: Seq<Seq<char>>)
    requires
        is_expansion(t, start, r),
    ensures
        is_expansion(t, start, name_set(r)),
{
    lemma_name_set(r);
    let n = name_set(r);
    assert forall|x: Seq<char>| #[trigger] start.contains(x) implies n.contains(x) by {
        assert(r.contains(x));
    }
    assert forall|a: Seq<char>, b: Seq<char>|
        n.to_set().contains(a) && #[trigger] implied(t, a).contains(b) implies #[trigger] n.to_set().contains(
        b,
    ) by {
        assert(n.contains(a));
        assert(r.to_set().contains(a));
        assert(r.to_set().contains(b));
        assert(r.contains(b));
        assert(n.contains(b));
    }
    assert forall|s: Set<Seq<char>>| #[trigger]
        closed_under(t, s) && (forall|x: Seq<char>| #[trigger]
            start.contains(x) ==> s.contains(x)) implies forall|x: Seq<char>| #[trigger]
        n.contains(x) ==> s.contains(x) by {
        assert forall|x: Seq<char>| #[trigger] n.contains(x) implies s.contains(x) by {
            assert(r.contains(x));
        }
    }
}

/// The keys of a table but for `default`.
fn feature_keys(table: &Vec<TableEntry>) -> (r: Vec<String>)
    ensures
        texts(r@) == entries(table@).map_values(|e: EntryView| e.0).filter(
            |k: Seq<char>| k != "default"@,
        ),
{
    let ghost keys = entries(table@).map_values(|e: EntryView| e.0);
    let ghost p = |k: Seq<char>| k != "default"@;
    let mut out: Vec<String> = Vec::new();
    let mut i: usize = 0;
    proof {
        assert(keys.take(0).filter(p) =~= Seq::empty()) by {
            reveal(Seq::filter);
        }
        assert(texts(out@) =~= Seq::empty());
    }
    while i < table.len()
        invariant
            i <= table@.len(),
            keys == entries(table@).map_values(|e: EntryView| e.0),
            p == (|k: Seq<char>| k != "default"@),
            texts(out@) == keys.take(i as int).filter(p),
        decreases table@.len() - i,
    {
        proof {
            crate::text::lemma_filter_step(keys, p, i as int);
            assert(keys[i as int] == table@[i as int].0@);
        }
        if !same(table[i].0.as_str(), "default") {
            proof {
                assert(texts(out@.push(table@[i as int].0)) =~= texts(out@).push(
                    table@[i as int].0@,
                ));
            }
            out.push(table[i].0.clone());
        }
        i = i + 1;
    }
    proof {
        assert(keys.take(table@.len() as int) =~= keys);
    }
    out
}

/// The feature set for a manifest's feature table and for flags.
pub fn resolve_with_table(
    table: &Option<Vec<TableEntry>>,
    user_features: &Vec<String>,
    no_default: bool,
    all_features: bool,
) -> (r: FeatureSet)
    ensures
        resolves_to(
            opt_entries(*table),
            flag_features(texts(user_features@)),
            no_default,
            all_features,
            r@,
        ),
{
    let user = split_flags(user_features);
    let empty: Vec<TableEntry> = Vec::new();
    proof {
        assert(entries(empty@) =~= Seq::empty());
    }
    let t: &Vec<TableEntry> = match table {
        Some(v) => v,
        None => &empty,
    };
    if all_features {
        let keys = feature_keys(t);
        proof {
            lemma_name_set(texts(keys@));
        }
        return FeatureSet::Exact(NameSet::from_names(&keys));
    }
    let mut start: Vec<String> = Vec::new();
    proof {
        assert(texts(start@) =~= Seq::empty());
    }
    if !no_default {
        start = implied_names(t, "default");
    }
    let ghost base = texts(start@);
    let ghost before = start@;
    let ghost mine = user@;
    let mut user = user;
    start.append(&mut user);
    proof {
        assert(texts(start@) =~= base + texts(mine));
        if no_default {
            assert(texts(start@) =~= texts(mine));
        }
    }
    let all = expand_transitive(&start, t);
    proof {
        lemma_expansion_set(entries(t@), texts(start@), texts(all@));
        lemma_name_set(texts(all@));
    }
    FeatureSet::Exact(NameSet::from_names(&all))
}

/// The manifest is no TOML document.
#[derive(Debug, Clone, Copy, PartialEq, Eq, Structural)]
pub enum ManifestError {
    Unparseable,
}

/// The active feature set of a run, or `None` when the manifest is no TOML
/// document. Without a manifest the named features count as they are; with
/// none named and none asked for, every `cfg(...)` is active.
pub open spec fn run_features(
    manifest: Option<Seq<char>>,
    flags: Seq<Seq<char>>,
    no_default: bool,
    all_features: bool,
    r: Option<FeaturesView>,
) -> bool {
    let user = flag_features(flags);
    match manifest {
        None => r == Some(
            if !all_features && user.len() == 0 {
                FeaturesView::Permissive
            } else {
                FeaturesView::Exact(name_set(user))
            },
        ),
        Some(src) => match document_table(src, "features"@) {
            None => r is None,
            Some(table) => r matches Some(f) && resolves_to(
                table,
                user,
                no_default,
                all_features,
                f,
            ),
        },
    }
}

/// A manifest and flags determine the active feature set.
pub proof fn run_features_are_unique(
    manifest: Option<Seq<char>>,
    flags: Seq<Seq<char>>,
    no_default: bool,
    all_features: bool,
    a: Option<FeaturesView>,
    b: Option<FeaturesView>,
)
    requires
        run_features(manifest, flags, no_default, all_features, a),
        run_features(manifest, flags, no_default, all_features, b),
    ensures
        a == b,
{
    if let Some(src) = manifest {
        if let Some(table) = document_table(src, "features"@) {
            let t: Seq<EntryView> = match table {
                Some(e) => e,
                None => Seq::empty(),
            };
            let x = a->0->Exact_0;
            let y = b->0->Exact_0;
            let user = flag_features(flags);
            if !all_features {
                if no_default {
                    expansion_is_unique(t, user, x, y);
                } else {
                    expansion_is_unique(t, implied(t, "default"@) + user, x, y);
                }
                crate::names::lemma_increasing_unique(x, y);
            }
        }
    }
}

/// The view of a feature set, where there is one.
pub open spec fn outcome_view(r: Result<FeatureSet, ManifestError>) -> Option<FeaturesView> {
    match r {
        Ok(f) => Some(f@),
        Err(_) => None,
    }
}

/// The active feature set of a run.
pub fn resolve_features(
    manifest: Option<&str>,
    user_features: &Vec<String>,
    no_default: bool,
    all_features: bool,
) -> (r: Result<FeatureSet, ManifestError>)
    ensures
        run_features(
            crate::diff::opt_str(manifest),
            texts(user_features@),
            no_default,
            all_features,
            outcome_view(r),
        ),
{
    match manifest {
        None => {
            let user = split_flags(user_features);
            proof {
                assert(texts(user@).len() == user@.len());
            }
            if !all_features && user.len() == 0 {
                Ok(FeatureSet::Permissive)
            } else {
                Ok(FeatureSet::Exact(NameSet::from_names(&user)))
            }
        },
        Some(src) => match read_table(src, "features") {
            Ok(table) => Ok(
                resolve_with_table(&table, user_features, no_default, all_features),
            ),
            Err(_) => Err(ManifestError::Unparseable),
        },
    }
}

/// Whether a list of feature strings names the feature `x` of the same crate:
/// neither a dependency nor a feature of one.
pub open spec fn names_own(list: Seq<Option<Seq<char>>>, x: Seq<char>) -> bool {
    &&& list.contains(Some(x))
    &&& !"dep:"@.is_prefix_of(x)
    &&& forall|i: int| 0 <= i < x.len() ==> #[trigger] x[i] != '/'
}

/// Whether the list of the feature `a` in a table names the feature `x`.
pub open spec fn turns_on(t: Seq<EntryView>, a: Seq<char>, x: Seq<char>) -> bool {
    exists|i: int|
        0 <= i < t.len() && (#[trigger] t[i]).0 == a && (forall|j: int|
            0 <= j < i ==> (#[trigger] t[j]).0 != a) && t[i].1 is Some && names_own(
            t[i].1->0,
            x,
        )
}

/// The strings of a list that count are just those that name a feature of the
/// same crate.
pub proof fn lists_name_features_of_the_same_crate(list: Seq<Option<Seq<char>>>, x: Seq<char>)
    ensures
        own_features(list).contains(x) <==> names_own(list, x),
{
    let p = |o: Option<Seq<char>>| o is Some && same_crate(o->0);
    let kept = list.filter(p);
    let own = own_features(list);
    lemma_filter_member(list, p, Some(x));
    assert(same_crate(x) <==> (!"dep:"@.is_prefix_of(x) && forall|i: int|
        0 <= i < x.len() ==> #[trigger] x[i] != '/')) by {
        if "dep:"@.is_prefix_of(x) {
            assert(begins(x, "dep:"@));
        }
        if begins(x, "dep:"@) {
            assert(x.subrange(0, "dep:"@.len() as int) =~= "dep:"@);
        }
        if x.contains('/') {
            let i = x.index_of('/');
            assert(x[i] == '/');
        }
    }
    if own.contains(x) {
        let k = own.index_of(x);
        assert(kept.contains(kept[k]));
        lemma_filter_member(list, p, kept[k]);
        assert(kept[k] == Some(x));
    }
    if kept.contains(Some(x)) {
        let k = kept.index_of(Some(x));
        assert(own[k] == x);
    }
}

/// A feature turns on just the features of the same crate that its entry lists.
pub proof fn features_turn_on_what_they_list(t: Seq<EntryView>, a: Seq<char>, x: Seq<char>)
    ensures
        implied(t, a).contains(x) <==> turns_on(t, a, x),
{
    lemma_entry_at(t, a, 0);
    lemma_entry_at_first(t, a, 0);
    let i = entry_at(t, a, 0);
    if i < t.len() {
        if let Some(list) = t[i].1 {
            lists_name_features_of_the_same_crate(list, x);
        }
    }
    if turns_on(t, a, x) {
        let k = choose|i: int|
            0 <= i < t.len() && (#[trigger] t[i]).0 == a && (forall|j: int|
                0 <= j < i ==> (#[trigger] t[j]).0 != a) && t[i].1 is Some && names_own(
                t[i].1->0,
                x,
            );
        assert(t[k].0 == a);
        assert(k == i);
    }
}

proof fn lemma_entry_at_first(t: Seq<EntryView>, a: Seq<char>, from: int)
    requires
        0 <= from <= t.len(),
    ensures
        ({
            let i = entry_at(t, a, from);
            &&& forall|j: int| from <= j < i ==> (#[trigger] t[j]).0 != a
            &&& i < t.len() ==> t[i].0 == a
        }),
    decreases t.len() - from,
{
    if from < t.len() && t[from].0 != a {
        lemma_entry_at_first(t, a, from + 1);
    }
}

/// A feature is active just where it is asked for, where `default` turns it on
/// and the defaults count, or where another active feature turns it on.
pub proof fn active_features_have_a_reason(
    t: Seq<EntryView>,
    user: Seq<Seq<char>>,
    no_default: bool,
    active: Seq<Seq<char>>,
    x: Seq<char>,
)
    requires
        resolves_to(Some(t), user, no_default, false, FeaturesView::Exact(active)),
    ensures
        active.contains(x) <==> user.contains(x) || (!no_default && turns_on(t, "default"@, x))
            || exists|a: Seq<char>| a != x && #[trigger] active.contains(a) && turns_on(t, a, x),
{
    let start = if no_default {
        user
    } else {
        implied(t, "default"@) + user
    };
    features_turn_on_what_they_list(t, "default"@, x);
    crate::scan::lemma_contains_add(implied(t, "default"@), user, x);
    assert(is_expansion(t, start, active));
    assert(closed_under(t, active.to_set()));
    if exists|a: Seq<char>| a != x && #[trigger] active.contains(a) && turns_on(t, a, x) {
        let a = choose|a: Seq<char>| a != x && #[trigger] active.contains(a) && turns_on(t, a, x);
        features_turn_on_what_they_list(t, a, x);
        assert(active.to_set().contains(a));
        assert(active.to_set().contains(x));
    }
    if start.contains(x) {
        assert(active.contains(x));
    }
    if active.contains(x) && !start.contains(x) && !exists|a: Seq<char>|
        a != x && #[trigger] active.contains(a) && turns_on(t, a, x) {
        let s = active.to_set().remove(x);
        assert forall|a: Seq<char>, b: Seq<char>|
            s.contains(a) && #[trigger] implied(t, a).contains(b) implies #[trigger] s.contains(
            b,
        ) by {
            assert(active.to_set().contains(a));
            assert(active.contains(a));
            assert(active.to_set().contains(b));
            if b == x {
                features_turn_on_what_they_list(t, a, x);
            }
        }
        assert(closed_under(t, s));
        assert forall|y: Seq<char>| #[trigger] start.contains(y) implies s.contains(y) by {
            assert(active.contains(y));
        }
        assert(s.contains(x));
    }
}

/// With every feature asked for, the active features are the keys of the table
/// but for `default`, whatever the flags name.
pub proof fn all_features_are_the_keys(
    t: Seq<EntryView>,
    user: Seq<Seq<char>>,
    no_default: bool,
    active: Seq<Seq<char>>,
    x: Seq<char>,
)
    requires
        resolves_to(Some(t), user, no_default, true, FeaturesView::Exact(active)),
    ensures
        active.contains(x) <==> x != "default"@ && exists|i: int|
            0 <= i < t.len() && (#[trigger] t[i]).0 == x,
{
    let keys = t.map_values(|e: EntryView| e.0);
    let p = |k: Seq<char>| k != "default"@;
    lemma_name_set(keys.filter(p));
    lemma_filter_member(keys, p, x);
    if keys.contains(x) {
        let k = keys.index_of(x);
        assert(t[k].0 == x);
    }
    if exists|i: int| 0 <= i < t.len() && (#[trigger] t[i]).0 == x {
        let k = choose|i: int| 0 <= i < t.len() && (#[trigger] t[i]).0 == x;
        assert(keys[k] == x);
    }
}

/// A manifest without a feature table has no feature but those asked for.
pub proof fn without_a_table_only_flags_count(
    user: Seq<Seq<char>>,
    no_default: bool,
    active: Seq<Seq<char>>,
    x: Seq<char>,
)
    requires
        resolves_to(None, user, no_default, false, FeaturesView::Exact(active)),
    ensures
        active.contains(x) <==> user.contains(x),
{
    let t = Seq::<EntryView>::empty();
    assert(resolves_to(Some(t), user, no_default, false, FeaturesView::Exact(active)));
    active_features_have_a_reason(t, user, no_default, active, x);
}

/// The flags name just the comma-separated words of each flag, without white
/// space around them and without the empty ones.
pub proof fn flags_name_their_words(flags: Seq<Seq<char>>, w: Seq<char>)
    ensures
        flag_features(flags).contains(w) <==> w.len() > 0 && exists|i: int, t: Seq<char>|
            0 <= i < flags.len() && #[trigger] pieces(flags[i], only(',')).contains(t) && w
                == trimmed(t),
    decreases flags.len(),
{
    if flags.len() > 0 {
        let head = flags.drop_last();
        flags_name_their_words(head, w);
        crate::scan::lemma_contains_add(flag_features(head), listed(flags.last()), w);
        let p = pieces(flags.last(), only(','));
        let m = p.map_values(|t: Seq<char>| trimmed(t));
        lemma_filter_member(m, |t: Seq<char>| t.len() > 0, w);
        if m.contains(w) {
            let k = m.index_of(w);
            assert(p.contains(p[k]));
            assert(flags[flags.len() - 1] == flags.last());
            assert(pieces(flags[flags.len() - 1], only(',')).contains(p[k]));
        }
        if flag_features(head).contains(w) {
            let (i, t) = choose|i: int, t: Seq<char>|
                0 <= i < head.len() && #[trigger] pieces(head[i], only(',')).contains(t) && w
                    == trimmed(t);
            assert(pieces(flags[i], only(',')).contains(t));
        }
        if exists|i: int, t: Seq<char>|
            0 <= i < flags.len() && #[trigger] pieces(flags[i], only(',')).contains(t) && w
                == trimmed(t) {
            let (i, t) = choose|i: int, t: Seq<char>|
                0 <= i < flags.len() && #[trigger] pieces(flags[i], only(',')).contains(t) && w
                    == trimmed(t);
            if i < head.len() {
                assert(pieces(head[i], only(',')).contains(t));
            } else {
                let k = p.index_of(t);
                assert(m[k] == w);
            }
        }
    }
}

/// Flags are read one behind the other.
pub proof fn flags_add_up(a: Seq<Seq<char>>, b: Seq<Seq<char>>)
    ensures
        flag_features(a + b) == flag_features(a) + flag_features(b),
    decreases b.len(),
{
    if b.len() > 0 {
        assert((a + b).drop_last() =~= a + b.drop_last());
        flags_add_up(a, b.drop_last());
    } else {
        assert(a + b =~= a);
    }
}

/// Without a manifest a run takes the named features as they are; every
/// `cfg(...)` is active just where none is named and none asked for.
pub proof fn without_a_manifest_flags_decide(
    flags: Seq<Seq<char>>,
    no_default: bool,
    all_features: bool,
    r: Option<FeaturesView>,
    w: Seq<char>,
)
    requires
        run_features(None, flags, no_default, all_features, r),
    ensures
        r is Some,
        r->0 is Permissive <==> !all_features && (forall|v: Seq<char>|
            !#[trigger] flag_features(flags).contains(v)),
        r matches Some(FeaturesView::Exact(active)) ==> (active.contains(w) <==> flag_features(
            flags,
        ).contains(w)),
{
    let user = flag_features(flags);
    lemma_name_set(user);
    if user.len() > 0 {
        assert(user.contains(user[0]));
    }
}

} // verus!
