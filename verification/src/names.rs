//! Sets of names, kept in lexicographic order.
use crate::text::{
    is_one_of, lemma_text_lt_asymmetric, lemma_text_lt_total, lemma_text_lt_transitive, less, same,
};
use vstd::prelude::*;

verus! {

/// Every name stands before the ones that follow it.
pub open spec fn increasing(s: Seq<Seq<char>>) -> bool {
    forall|i: int, j: int|
        #![trigger s[i], s[j]]
        0 <= i < j < s.len() ==> crate::text::text_lt(s[i], s[j])
}

/// The ordered names `s` together with `n`.
pub open spec fn with_name(s: Seq<Seq<char>>, n: Seq<char>) -> Seq<Seq<char>>
    decreases s.len(),
{
    if s.len() == 0 {
        seq![n]
    } else if s[0] == n {
        s
    } else if crate::text::text_lt(n, s[0]) {
        seq![n] + s
    } else {
        seq![s[0]] + with_name(s.skip(1), n)
    }
}

/// The names of `s` in order, each once.
pub open spec fn name_set(s: Seq<Seq<char>>) -> Seq<Seq<char>>
    decreases s.len(),
{
    if s.len() == 0 {
        Seq::empty()
    } else {
        with_name(name_set(s.drop_last()), s.last())
    }
}

/// Adding a name keeps the order and adds just that name.
pub proof fn lemma_with_name(s: Seq<Seq<char>>, n: Seq<char>)
    requires
        increasing(s),
    ensures
        increasing(with_name(s, n)),
        forall|x: Seq<char>| #[trigger] with_name(s, n).contains(x) <==> (s.contains(x) || x == n),
        s.contains(n) ==> with_name(s, n) == s,
        !s.contains(n) ==> with_name(s, n).len() == s.len() + 1,
    decreases s.len(),
{
    let r = with_name(s, n);
    if s.len() == 0 {
        assert(r[0] == n);
        assert(r.contains(n));
    } else if s[0] == n {
        assert(s.contains(n));
    } else if crate::text::text_lt(n, s[0]) {
        assert forall|i: int, j: int| #![trigger r[i], r[j]] 0 <= i < j < r.len() implies crate::text::text_lt(
            r[i],
            r[j],
        ) by {
            assert(r[j] == s[j - 1]);
            if i == 0 {
                if j > 1 {
                    assert(crate::text::text_lt(s[0], s[j - 1]));
                    lemma_text_lt_transitive(n, s[0], s[j - 1]);
                }
            } else {
                assert(r[i] == s[i - 1]);
                assert(crate::text::text_lt(s[i - 1], s[j - 1]));
            }
        }
        assert(r[0] == n);
        assert forall|x: Seq<char>| #[trigger] r.contains(x) <==> (s.contains(x) || x == n) by {
            if s.contains(x) {
                let k = s.index_of(x);
                assert(r[k + 1] == x);
            }
            if r.contains(x) {
                let k = r.index_of(x);
                if k > 0 {
                    assert(s[k - 1] == x);
                }
            }
        }
        if s.contains(n) {
            let k = s.index_of(n);
            if k > 0 {
                assert(crate::text::text_lt(s[0], s[k]));
                lemma_text_lt_asymmetric(n, s[0]);
            }
        }
    } else {
        let rest = s.skip(1);
        assert(increasing(rest)) by {
            assert forall|i: int, j: int| #![trigger rest[i], rest[j]] 0 <= i < j < rest.len() implies crate::text::text_lt(
                rest[i],
                rest[j],
            ) by {
                assert(crate::text::text_lt(s[i + 1], s[j + 1]));
            }
        }
        lemma_with_name(rest, n);
        lemma_text_lt_total(n, s[0]);
        let tail = with_name(rest, n);
        assert forall|x: Seq<char>| #[trigger] rest.contains(x) <==> (s.contains(x) && x != s[0]) by {
            if rest.contains(x) {
                let k = rest.index_of(x);
                assert(s[k + 1] == x);
                lemma_text_lt_asymmetric(s[0], s[k + 1]);
            }
            if s.contains(x) && x != s[0] {
                let k = s.index_of(x);
                assert(rest[k - 1] == x);
            }
        }
        assert forall|i: int, j: int| #![trigger r[i], r[j]] 0 <= i < j < r.len() implies crate::text::text_lt(
            r[i],
            r[j],
        ) by {
            assert(r[j] == tail[j - 1]);
            if i == 0 {
                assert(tail.contains(tail[j - 1]));
                if tail[j - 1] != n {
                    let k = rest.index_of(tail[j - 1]);
                    assert(crate::text::text_lt(s[0], s[k + 1]));
                }
            } else {
                assert(r[i] == tail[i - 1]);
            }
        }
        assert forall|x: Seq<char>| #[trigger] r.contains(x) <==> (s.contains(x) || x == n) by {
            if r.contains(x) {
                let k = r.index_of(x);
                if k > 0 {
                    assert(tail[k - 1] == x);
                    assert(tail.contains(x));
                } else {
                    assert(s[0] == x);
                }
            }
            if s.contains(x) || x == n {
                if x == s[0] {
                    assert(r[0] == x);
                } else {
                    assert(tail.contains(x));
                    let k = tail.index_of(x);
                    assert(r[k + 1] == x);
                }
            }
        }
        if s.contains(n) {
            assert(rest.contains(n));
            assert(r =~= s);
        }
    }
}

/// The set of names holds exactly the names given, in order, each once.
pub proof fn lemma_name_set(s: Seq<Seq<char>>)
    ensures
        increasing(name_set(s)),
        forall|x: Seq<char>| #[trigger] name_set(s).contains(x) <==> s.contains(x),
    decreases s.len(),
{
    if s.len() > 0 {
        lemma_name_set(s.drop_last());
        lemma_with_name(name_set(s.drop_last()), s.last());
        assert forall|x: Seq<char>| #[trigger] name_set(s).contains(x) <==> s.contains(x) by {
            if s.contains(x) {
                let k = s.index_of(x);
                if k < s.len() - 1 {
                    assert(s.drop_last()[k] == x);
                }
            }
            if s.drop_last().contains(x) {
                let k = s.drop_last().index_of(x);
                assert(s[k] == x);
            }
            if x == s.last() {
                assert(s[s.len() - 1] == x);
            }
        }
    }
}

/// Two ordered lists with the same names are the same list.
pub proof fn lemma_increasing_unique(a: Seq<Seq<char>>, b: Seq<Seq<char>>)
    requires
        increasing(a),
        increasing(b),
        forall|x: Seq<char>| #[trigger] a.contains(x) <==> b.contains(x),
    ensures
        a == b,
    decreases a.len(),
{
    if a.len() == 0 {
        if b.len() > 0 {
            assert(b.contains(b[0]));
            assert(a.contains(b[0]));
        }
        assert(a =~= b);
    } else {
        assert(a.contains(a[0]));
        assert(b.contains(a[0]));
        let k = b.index_of(a[0]);
        assert(b.contains(b[0]));
        assert(a.contains(b[0]));
        let m = a.index_of(b[0]);
        if k > 0 && m > 0 {
            assert(crate::text::text_lt(b[0], b[k]));
            assert(crate::text::text_lt(a[0], a[m]));
            lemma_text_lt_asymmetric(a[0], b[0]);
        }
        assert(a[0] == b[0]);
        let x = a.skip(1);
        let y = b.skip(1);
        assert forall|t: Seq<char>| #[trigger] x.contains(t) <==> y.contains(t) by {
            if x.contains(t) {
                let i = x.index_of(t);
                assert(a[i + 1] == t);
                assert(a.contains(t));
                let j = b.index_of(t);
                if j == 0 {
                    assert(crate::text::text_lt(a[0], a[i + 1]));
                    lemma_text_lt_asymmetric(a[0], a[i + 1]);
                }
                assert(y[j - 1] == t);
            }
            if y.contains(t) {
                let i = y.index_of(t);
                assert(b[i + 1] == t);
                assert(b.contains(t));
                assert(a.contains(t));
                let j = a.index_of(t);
                if j == 0 {
                    assert(crate::text::text_lt(b[0], b[i + 1]));
                    lemma_text_lt_asymmetric(b[0], b[i + 1]);
                }
                assert(x[j - 1] == t);
            }
        }
        assert(increasing(x)) by {
            assert forall|i: int, j: int| #![trigger x[i], x[j]] 0 <= i < j < x.len() implies crate::text::text_lt(
                x[i],
                x[j],
            ) by {
                assert(crate::text::text_lt(a[i + 1], a[j + 1]));
            }
        }
        assert(increasing(y)) by {
            assert forall|i: int, j: int| #![trigger y[i], y[j]] 0 <= i < j < y.len() implies crate::text::text_lt(
                y[i],
                y[j],
            ) by {
                assert(crate::text::text_lt(b[i + 1], b[j + 1]));
            }
        }
        lemma_increasing_unique(x, y);
        assert(a =~= seq![a[0]] + x);
        assert(b =~= seq![b[0]] + y);
    }
}

/// A set of names. Its view lists the names in order, each once.
#[derive(Debug, PartialEq, Eq)]
pub struct NameSet {
    names: Vec<String>,
}

impl View for NameSet {
    type V = Seq<Seq<char>>;

    closed spec fn view(&self) -> Seq<Seq<char>> {
        crate::text::texts(self.names@)
    }
}

impl Clone for NameSet {
    fn clone(&self) -> (r: NameSet)
        ensures
            r@ == self@,
    {
        proof {
            use_type_invariant(self);
        }
        let names = self.names.clone();
        proof {
            assert(crate::text::texts(names@) =~= crate::text::texts(self.names@));
        }
        NameSet { names }
    }
}

impl NameSet {
    /// The names stand in order.
    #[verifier::type_invariant]
    spec fn ordered(&self) -> bool {
        increasing(crate::text::texts(self.names@))
    }

    /// The empty set.
    pub fn new() -> (r: NameSet)
        ensures
            r@ == Seq::<Seq<char>>::empty(),
    {
        let names: Vec<String> = Vec::new();
        proof {
            assert(crate::text::texts(names@) =~= Seq::empty());
        }
        NameSet { names }
    }

    /// The names in order.
    pub fn list(&self) -> (r: &Vec<String>)
        ensures
            crate::text::texts(r@) == self@,
            increasing(self@),
    {
        proof {
            use_type_invariant(self);
        }
        &self.names
    }

    /// Whether the set is empty.
    pub fn is_empty(&self) -> (r: bool)
        ensures
            r == (self@.len() == 0),
    {
        self.names.len() == 0
    }

    /// Number of names.
    pub fn len(&self) -> (r: usize)
        ensures
            r == self@.len(),
    {
        self.names.len()
    }

    /// Whether `name` is in the set.
    pub fn contains(&self, name: &str) -> (r: bool)
        ensures
            r == self@.contains(name@),
    {
        is_one_of(&self.names, name)
    }

    /// Adds `name`.
    pub fn insert(&mut self, name: &str)
        ensures
            final(self)@ == with_name(old(self)@, name@),
    {
        proof {
            use_type_invariant(&*self);
            lemma_with_name(self@, name@);
        }
        let mut i: usize = 0;
        proof {
            assert(self@.take(0) + with_name(self@.skip(0), name@) =~= with_name(self@, name@)) by {
                assert(self@.skip(0) =~= self@);
            }
        }
        while i < self.names.len() && !same(self.names[i].as_str(), name) && less(
            self.names[i].as_str(),
            name,
        )
            invariant
                i <= self@.len(),
                self@.len() == self.names@.len(),
                *self == *old(self),
                with_name(self@, name@) == self@.take(i as int) + with_name(
                    self@.skip(i as int),
                    name@,
                ),
            decreases self.names@.len() - i,
        {
            proof {
                let rest = self@.skip(i as int);
                assert(rest[0] == self.names@[i as int]@);
                lemma_text_lt_asymmetric(rest[0], name@);
                assert(rest.skip(1) =~= self@.skip(i + 1));
                assert(self@.take(i as int) + (seq![rest[0]] + with_name(rest.skip(1), name@))
                    =~= self@.take(i + 1) + with_name(self@.skip(i + 1), name@));
            }
            i = i + 1;
        }
        let ghost rest = self@.skip(i as int);
        if i < self.names.len() && same(self.names[i].as_str(), name) {
            proof {
                assert(rest[0] == name@);
                assert(self@.take(i as int) + rest =~= self@);
            }
            return ;
        }
        let mut names: Vec<String> = Vec::new();
        let ghost before = self@;
        std::mem::swap(&mut names, &mut self.names);
        let ghost held = names@;
        names.insert(i, name.to_owned());
        proof {
            if i < before.len() {
                assert(rest[0] == held[i as int]@);
                lemma_text_lt_total(name@, rest[0]);
            }
            assert(crate::text::texts(names@) =~= before.take(i as int) + (seq![name@] + rest));
            assert(with_name(rest, name@) =~= seq![name@] + rest);
        }
        self.names = names;
    }

    /// The set of the names of `names`.
    pub fn from_names(names: &Vec<String>) -> (r: NameSet)
        ensures
            r@ == name_set(crate::text::texts(names@)),
    {
        let mut r = NameSet::new();
        let mut i: usize = 0;
        let ghost all = crate::text::texts(names@);
        while i < names.len()
            invariant
                i <= names@.len(),
                all == crate::text::texts(names@),
                r@ == name_set(all.take(i as int)),
            decreases names@.len() - i,
        {
            proof {
                assert(all.take(i + 1).drop_last() =~= all.take(i as int));
                assert(all.take(i + 1).last() == names@[i as int]@);
            }
            r.insert(names[i].as_str());
            i = i + 1;
        }
        proof {
            assert(all.take(names@.len() as int) =~= all);
        }
        r
    }
}

} // verus!
