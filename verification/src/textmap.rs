//! Maps keyed by text, listed in the order of their keys.
use crate::names::increasing;
use crate::text::{lemma_text_lt_total, lemma_text_lt_transitive, less, same, text_lt};
use vstd::prelude::*;

verus! {

/// The ordered entries `s` with the value of `k` set to `w`.
pub open spec fn put<W>(s: Seq<(Seq<char>, W)>, k: Seq<char>, w: W) -> Seq<(Seq<char>, W)>
    decreases s.len(),
{
    if s.len() == 0 {
        seq![(k, w)]
    } else if s[0].0 == k {
        s.update(0, (k, w))
    } else if text_lt(k, s[0].0) {
        seq![(k, w)] + s
    } else {
        seq![s[0]] + put(s.skip(1), k, w)
    }
}

/// The value of `k`, where it has one.
pub open spec fn lookup<W>(s: Seq<(Seq<char>, W)>, k: Seq<char>) -> Option<W>
    decreases s.len(),
{
    if s.len() == 0 {
        None
    } else if s[0].0 == k {
        Some(s[0].1)
    } else {
        lookup(s.skip(1), k)
    }
}

/// The keys of entries.
pub open spec fn keys<W>(s: Seq<(Seq<char>, W)>) -> Seq<Seq<char>> {
    s.map_values(|e: (Seq<char>, W)| e.0)
}

/// Setting a value keeps the keys in order, gives that value back, and leaves
/// the other values as they are.
pub proof fn putting_sets_one_key<W>(s: Seq<(Seq<char>, W)>, k: Seq<char>, w: W)
    requires
        increasing(keys(s)),
    ensures
        increasing(keys(put(s, k, w))),
        lookup(put(s, k, w), k) == Some(w),
        forall|j: Seq<char>| j != k ==> #[trigger] lookup(put(s, k, w), j) == lookup(s, j),
        forall|j: Seq<char>| #[trigger]
            keys(put(s, k, w)).contains(j) ==> keys(s).contains(j) || j == k,
    decreases s.len(),
{
    let r = put(s, k, w);
    if s.len() == 0 {
        assert(r.skip(1) =~= s);
        assert(keys(r) =~= seq![k]);
    } else if s[0].0 == k {
        assert(r.skip(1) =~= s.skip(1));
        assert(keys(r) =~= keys(s));
    } else if text_lt(k, s[0].0) {
        assert(r.skip(1) =~= s);
        let ks = keys(s);
        let kr = keys(r);
        assert(kr =~= seq![k] + ks);
        assert forall|i: int, j: int| #![trigger kr[i], kr[j]] 0 <= i < j < kr.len() implies text_lt(
            kr[i],
            kr[j],
        ) by {
            assert(kr[j] == ks[j - 1]);
            if i == 0 {
                if j > 1 {
                    assert(text_lt(ks[0], ks[j - 1]));
                    lemma_text_lt_transitive(k, ks[0], ks[j - 1]);
                }
            } else {
                assert(kr[i] == ks[i - 1]);
            }
        }
        assert forall|j: Seq<char>| #[trigger] kr.contains(j) implies ks.contains(j) || j == k by {
            let i = kr.index_of(j);
            if i > 0 {
                assert(ks[i - 1] == j);
            }
        }
    } else {
        let rest = s.skip(1);
        let ks = keys(s);
        let kt = keys(rest);
        assert(kt =~= ks.skip(1));
        assert(increasing(kt)) by {
            assert forall|i: int, j: int| #![trigger kt[i], kt[j]] 0 <= i < j < kt.len() implies text_lt(
                kt[i],
                kt[j],
            ) by {
                assert(text_lt(ks[i + 1], ks[j + 1]));
            }
        }
        putting_sets_one_key(rest, k, w);
        let tail = put(rest, k, w);
        assert(r.skip(1) =~= tail);
        assert forall|j: Seq<char>| j != k implies #[trigger] lookup(r, j) == lookup(s, j) by {
            assert(lookup(tail, j) == lookup(rest, j));
        }
        let kr = keys(r);
        assert(kr =~= seq![ks[0]] + keys(tail));
        lemma_text_lt_total(k, s[0].0);
        assert forall|i: int, j: int| #![trigger kr[i], kr[j]] 0 <= i < j < kr.len() implies text_lt(
            kr[i],
            kr[j],
        ) by {
            assert(kr[j] == keys(tail)[j - 1]);
            if i == 0 {
                assert(keys(tail).contains(kr[j]));
                if kr[j] != k {
                    let m = kt.index_of(kr[j]);
                    assert(text_lt(ks[0], ks[m + 1]));
                }
            } else {
                assert(kr[i] == keys(tail)[i - 1]);
            }
        }
        assert forall|j: Seq<char>| #[trigger] kr.contains(j) implies ks.contains(j) || j == k by {
            let i = kr.index_of(j);
            if i > 0 {
                assert(keys(tail)[i - 1] == j);
                assert(keys(tail).contains(j));
                if j != k {
                    let m = kt.index_of(j);
                    assert(ks[m + 1] == j);
                }
            } else {
                assert(ks[0] == j);
            }
        }
    }
}

/// A map keyed by text.
pub struct TextMap<V> {
    pub entries: Vec<(String, V)>,
}

/// Entries as plain data.
pub open spec fn entry_list<V: View>(s: Seq<(String, V)>) -> Seq<(Seq<char>, V::V)> {
    s.map_values(|e: (String, V)| (e.0@, e.1@))
}

impl<V: View> View for TextMap<V> {
    type V = Seq<(Seq<char>, V::V)>;

    open spec fn view(&self) -> Seq<(Seq<char>, V::V)> {
        entry_list(self.entries@)
    }
}

impl<V: View> TextMap<V> {
    /// The empty map.
    pub fn new() -> (r: TextMap<V>)
        ensures
            r@ == Seq::<(Seq<char>, V::V)>::empty(),
    {
        let entries: Vec<(String, V)> = Vec::new();
        proof {
            assert(entry_list(entries@) =~= Seq::empty());
        }
        TextMap { entries }
    }

    /// Sets the value of a key.
    pub fn insert(&mut self, key: &str, value: V)
        ensures
            final(self)@ == put(old(self)@, key@, value@),
    {
        let ghost s = self@;
        let ghost w = value@;
        let mut i: usize = 0;
        proof {
            assert(s.take(0) + put(s.skip(0), key@, w) =~= put(s, key@, w)) by {
                assert(s.skip(0) =~= s);
            }
        }
        while i < self.entries.len() && !same(self.entries[i].0.as_str(), key) && !less(
            key,
            self.entries[i].0.as_str(),
        )
            invariant
                i <= s.len(),
                *self == *old(self),
                s == self@,
                s.len() == self.entries@.len(),
                put(s, key@, w) == s.take(i as int) + put(s.skip(i as int), key@, w),
            decreases self.entries@.len() - i,
        {
            proof {
                let rest = s.skip(i as int);
                assert(rest[0] == s[i as int]);
                assert(s[i as int].0 == self.entries@[i as int].0@);
                assert(rest.skip(1) =~= s.skip(i + 1));
                assert(s.take(i as int) + (seq![rest[0]] + put(rest.skip(1), key@, w)) =~= s.take(
                    i + 1,
                ) + put(s.skip(i + 1), key@, w));
            }
            i = i + 1;
        }
        let ghost rest = s.skip(i as int);
        if i < self.entries.len() && same(self.entries[i].0.as_str(), key) {
            proof {
                assert(rest[0] == s[i as int]);
                assert(s.take(i as int) + rest.update(0, (key@, w)) =~= s.update(
                    i as int,
                    (key@, w),
                ));
            }
            let k = self.entries[i].0.clone();
            self.entries.set(i, (k, value));
            proof {
                assert(self@ =~= s.update(i as int, (key@, w)));
            }
        } else {
            proof {
                if i < s.len() {
                    assert(rest[0] == s[i as int]);
                }
                assert(put(rest, key@, w) =~= seq![(key@, w)] + rest);
                assert(s.take(i as int) + (seq![(key@, w)] + rest) =~= s.insert(
                    i as int,
                    (key@, w),
                ));
            }
            self.entries.insert(i, (key.to_owned(), value));
            proof {
                assert(self@ =~= s.insert(i as int, (key@, w)));
            }
        }
    }

    /// The value of a key, where it has one.
    pub fn get(&self, key: &str) -> (r: Option<&V>)
        ensures
            match r {
                Some(v) => lookup(self@, key@) == Some(v@),
                None => lookup(self@, key@) is None,
            },
    {
        let ghost s = self@;
        let mut i: usize = 0;
        proof {
            assert(s.skip(0) =~= s);
        }
        while i < self.entries.len()
            invariant
                i <= s.len(),
                s == self@,
                s.len() == self.entries@.len(),
                lookup(s, key@) == lookup(s.skip(i as int), key@),
            decreases self.entries@.len() - i,
        {
            proof {
                assert(s.skip(i as int)[0] == s[i as int]);
                assert(s[i as int].0 == self.entries@[i as int].0@);
                assert(s[i as int].1 == self.entries@[i as int].1@);
                assert(s.skip(i as int).skip(1) =~= s.skip(i + 1));
            }
            if same(self.entries[i].0.as_str(), key) {
                return Some(&self.entries[i].1);
            }
            i = i + 1;
        }
        None
    }
}

/// A value that was set comes back, and setting it changes no other.
pub proof fn set_values_come_back<W>(
    s: Seq<(Seq<char>, W)>,
    k: Seq<char>,
    w: W,
    other: Seq<char>,
)
    ensures
        lookup(put(s, k, w), k) == Some(w),
        other != k ==> lookup(put(s, k, w), other) == lookup(s, other),
    decreases s.len(),
{
    let r = put(s, k, w);
    if s.len() == 0 {
        assert(r.skip(1) =~= s);
    } else if s[0].0 == k {
        assert(r.skip(1) =~= s.skip(1));
    } else if text_lt(k, s[0].0) {
        assert(r.skip(1) =~= s);
    } else {
        set_values_come_back(s.skip(1), k, w, other);
        assert(r.skip(1) =~= put(s.skip(1), k, w));
    }
}

/// A key has a value exactly where an entry has the key, and the value is that of
/// the first such entry; where the keys stand in order there is no other.
pub proof fn values_are_those_of_entries<W>(s: Seq<(Seq<char>, W)>, k: Seq<char>)
    ensures
        lookup(s, k) is None <==> forall|j: int| 0 <= j < s.len() ==> (#[trigger] s[j]).0 != k,
        lookup(s, k) is Some ==> exists|j: int|
            0 <= j < s.len() && (#[trigger] s[j]).0 == k && lookup(s, k) == Some(s[j].1),
        increasing(keys(s)) ==> forall|j: int|
            0 <= j < s.len() && (#[trigger] s[j]).0 == k ==> lookup(s, k) == Some(s[j].1),
    decreases s.len(),
{
    if s.len() > 0 {
        let rest = s.skip(1);
        values_are_those_of_entries(rest, k);
        if s[0].0 == k {
            if increasing(keys(s)) {
                assert forall|j: int| 0 <= j < s.len() && (#[trigger] s[j]).0 == k implies lookup(
                    s,
                    k,
                ) == Some(s[j].1) by {
                    if j > 0 {
                        let ks = keys(s);
                        assert(text_lt(ks[0], ks[j]));
                        crate::text::lemma_text_lt_irreflexive(k);
                    }
                }
            }
        } else {
            if lookup(rest, k) is Some {
                let j = choose|j: int|
                    0 <= j < rest.len() && (#[trigger] rest[j]).0 == k && lookup(rest, k) == Some(
                        rest[j].1,
                    );
                assert(s[j + 1] == rest[j]);
            } else {
                assert forall|j: int| 0 <= j < s.len() implies (#[trigger] s[j]).0 != k by {
                    if j > 0 {
                        assert(rest[j - 1] == s[j]);
                    }
                }
            }
            if increasing(keys(s)) {
                let ks = keys(s);
                assert(keys(rest) =~= ks.skip(1));
                assert(increasing(keys(rest))) by {
                    let kr = keys(rest);
                    assert forall|a: int, b: int|
                        #![trigger kr[a], kr[b]]
                        0 <= a < b < kr.len() implies text_lt(kr[a], kr[b]) by {
                        assert(text_lt(ks[a + 1], ks[b + 1]));
                    }
                }
                assert forall|j: int| 0 <= j < s.len() && (#[trigger] s[j]).0 == k implies lookup(
                    s,
                    k,
                ) == Some(s[j].1) by {
                    assert(rest[j - 1] == s[j]);
                }
            }
        }
    }
}

/// The first entry of a key is the one that counts.
pub proof fn lemma_lookup_is<W>(s: Seq<(Seq<char>, W)>, k: Seq<char>, at: int)
    requires
        0 <= at < s.len(),
        s[at].0 == k,
        forall|j: int| 0 <= j < at ==> (#[trigger] s[j]).0 != k,
    ensures
        lookup(s, k) == Some(s[at].1),
    decreases at,
{
    if at > 0 {
        let rest = s.skip(1);
        assert(s[0].0 != k);
        assert(rest[at - 1] == s[at]);
        assert forall|j: int| 0 <= j < at - 1 implies (#[trigger] rest[j]).0 != k by {
            assert(rest[j] == s[j + 1]);
        }
        lemma_lookup_is(rest, k, at - 1);
    }
}

} // verus!
