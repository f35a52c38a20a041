//! Stable sorting and ordered sets, over any strict weak order.
use vstd::prelude::*;

verus! {

/// `lt` is a strict weak order.
pub open spec fn weak_order<T>(lt: spec_fn(T, T) -> bool) -> bool {
    &&& forall|a: T| !#[trigger] lt(a, a)
    &&& forall|a: T, b: T, c: T| #[trigger] lt(a, c) ==> #[trigger] lt(a, b) || lt(b, c)
    &&& forall|a: T, b: T| #[trigger] lt(a, b) ==> !lt(b, a)
}

/// No element stands before one that it should follow.
pub open spec fn in_order<T>(s: Seq<T>, lt: spec_fn(T, T) -> bool) -> bool {
    forall|i: int, j: int| #![trigger s[i], s[j]] 0 <= i < j < s.len() ==> !lt(s[j], s[i])
}

/// `s` with `x` put in behind every element that does not have to follow it.
pub open spec fn inserted<T>(s: Seq<T>, x: T, lt: spec_fn(T, T) -> bool) -> Seq<T>
    decreases s.len(),
{
    if s.len() == 0 {
        seq![x]
    } else if lt(x, s.last()) {
        inserted(s.drop_last(), x, lt).push(s.last())
    } else {
        s.push(x)
    }
}

/// `s` sorted; elements that the order does not tell apart keep their places
/// relative to each other.
pub open spec fn sorted<T>(s: Seq<T>, lt: spec_fn(T, T) -> bool) -> Seq<T>
    decreases s.len(),
{
    if s.len() == 0 {
        Seq::empty()
    } else {
        inserted(sorted(s.drop_last(), lt), s.last(), lt)
    }
}

/// Inserting keeps the order and adds exactly the new element.
pub proof fn lemma_inserted<T>(s: Seq<T>, x: T, lt: spec_fn(T, T) -> bool)
    requires
        weak_order(lt),
        in_order(s, lt),
    ensures
        in_order(inserted(s, x, lt), lt),
        inserted(s, x, lt).to_multiset() == s.to_multiset().insert(x),
        inserted(s, x, lt).len() == s.len() + 1,
    decreases s.len(),
{
    broadcast use vstd::seq_lib::group_to_multiset_ensures;

    let r = inserted(s, x, lt);
    if s.len() == 0 {
        assert(r =~= s.push(x));
    } else if lt(x, s.last()) {
        let head = s.drop_last();
        assert(in_order(head, lt)) by {
            assert forall|i: int, j: int| #![trigger head[i], head[j]] 0 <= i < j < head.len() implies !lt(
                head[j],
                head[i],
            ) by {
                assert(!lt(s[j], s[i]));
            }
        }
        lemma_inserted(head, x, lt);
        let rest = inserted(head, x, lt);
        assert forall|i: int, j: int| #![trigger r[i], r[j]] 0 <= i < j < r.len() implies !lt(
            r[j],
            r[i],
        ) by {
            if j < rest.len() {
                assert(r[i] == rest[i] && r[j] == rest[j]);
            } else {
                assert(rest.to_multiset().contains(rest[i]));
                if rest[i] != x {
                    assert(head.to_multiset().contains(rest[i]));
                    assert(head.contains(rest[i]));
                    let k = head.index_of(rest[i]);
                    assert(!lt(s[s.len() - 1], s[k]));
                }
            }
        }
        assert(s =~= head.push(s.last()));
        assert(r.to_multiset() =~= s.to_multiset().insert(x));
    } else {
        assert forall|i: int, j: int| #![trigger r[i], r[j]] 0 <= i < j < r.len() implies !lt(
            r[j],
            r[i],
        ) by {
            if j == s.len() {
                if i < s.len() - 1 {
                    assert(!lt(s[s.len() - 1], s[i]));
                    if lt(x, s[i]) {
                        assert(lt(x, s.last()) || lt(s.last(), s[i]));
                    }
                }
            } else {
                assert(!lt(s[j], s[i]));
            }
        }
    }
}

/// Sorting gives an ordered list of the same elements.
pub proof fn sorting_orders<T>(s: Seq<T>, lt: spec_fn(T, T) -> bool)
    requires
        weak_order(lt),
    ensures
        in_order(sorted(s, lt), lt),
        sorted(s, lt).to_multiset() == s.to_multiset(),
        sorted(s, lt).len() == s.len(),
    decreases s.len(),
{
    broadcast use vstd::seq_lib::group_to_multiset_ensures;

    if s.len() > 0 {
        sorting_orders(s.drop_last(), lt);
        lemma_inserted(sorted(s.drop_last(), lt), s.last(), lt);
        assert(s =~= s.drop_last().push(s.last()));
    }
}

/// Sorting leaves an ordered list as it is.
pub proof fn sorting_is_idempotent<T>(s: Seq<T>, lt: spec_fn(T, T) -> bool)
    requires
        in_order(s, lt),
    ensures
        sorted(s, lt) == s,
    decreases s.len(),
{
    if s.len() > 0 {
        let head = s.drop_last();
        assert(in_order(head, lt)) by {
            assert forall|i: int, j: int| #![trigger head[i], head[j]] 0 <= i < j < head.len() implies !lt(
                head[j],
                head[i],
            ) by {
                assert(!lt(s[j], s[i]));
            }
        }
        sorting_is_idempotent(head, lt);
        if head.len() > 0 {
            assert(head.last() == s[s.len() - 2]);
            assert(!lt(s[s.len() - 1], s[s.len() - 2]));
        }
        assert(head.push(s.last()) =~= s);
        assert(inserted(head, s.last(), lt) =~= s);
    }
}

/// One step of an insertion that walks down from the end.
pub proof fn lemma_insert_step<T>(s: Seq<T>, x: T, lt: spec_fn(T, T) -> bool, i: int)
    requires
        0 < i <= s.len(),
        lt(x, s[i - 1]),
        inserted(s, x, lt) == inserted(s.take(i), x, lt) + s.skip(i),
    ensures
        inserted(s, x, lt) == inserted(s.take(i - 1), x, lt) + s.skip(i - 1),
{
    assert(s.take(i).last() == s[i - 1]);
    assert(s.take(i).drop_last() =~= s.take(i - 1));
    assert(inserted(s.take(i - 1), x, lt).push(s[i - 1]) + s.skip(i) =~= inserted(
        s.take(i - 1),
        x,
        lt,
    ) + s.skip(i - 1));
}

/// Where an insertion ends.
pub proof fn lemma_insert_end<T>(s: Seq<T>, x: T, lt: spec_fn(T, T) -> bool, i: int)
    requires
        0 <= i <= s.len(),
        i == 0 || !lt(x, s[i - 1]),
        inserted(s, x, lt) == inserted(s.take(i), x, lt) + s.skip(i),
    ensures
        inserted(s, x, lt) == s.insert(i, x),
{
    if i > 0 {
        assert(s.take(i).last() == s[i - 1]);
    }
    assert(inserted(s.take(i), x, lt) =~= s.take(i).push(x));
    assert(s.take(i).push(x) + s.skip(i) =~= s.insert(i, x));
}

/// The ordered list `s` with `x`, unless an element that the order does not
/// tell from `x` is there.
pub open spec fn included<T>(s: Seq<T>, x: T, lt: spec_fn(T, T) -> bool) -> Seq<T> {
    if exists|i: int| 0 <= i < s.len() && !lt(#[trigger] s[i], x) && !lt(x, s[i]) {
        s
    } else {
        inserted(s, x, lt)
    }
}

/// The elements of `s` in order; of elements that the order does not tell
/// apart the first stays.
pub open spec fn distinct_sorted<T>(s: Seq<T>, lt: spec_fn(T, T) -> bool) -> Seq<T>
    decreases s.len(),
{
    if s.len() == 0 {
        Seq::empty()
    } else {
        included(distinct_sorted(s.drop_last(), lt), s.last(), lt)
    }
}

/// Every element is strictly before the ones that follow it.
pub open spec fn strictly_in_order<T>(s: Seq<T>, lt: spec_fn(T, T) -> bool) -> bool {
    forall|i: int, j: int| #![trigger s[i], s[j]] 0 <= i < j < s.len() ==> lt(s[i], s[j])
}

/// Where an element went and what stayed.
proof fn lemma_inserted_elements<T>(s: Seq<T>, x: T, lt: spec_fn(T, T) -> bool)
    ensures
        forall|y: T| #[trigger] inserted(s, x, lt).contains(y) <==> (s.contains(y) || y == x),
    decreases s.len(),
{
    let r = inserted(s, x, lt);
    if s.len() == 0 {
        assert(r[0] == x);
    } else if lt(x, s.last()) {
        let head = s.drop_last();
        lemma_inserted_elements(head, x, lt);
        let rest = inserted(head, x, lt);
        assert forall|y: T| #[trigger] r.contains(y) <==> (s.contains(y) || y == x) by {
            if r.contains(y) {
                let k = r.index_of(y);
                if k < rest.len() {
                    assert(rest[k] == y);
                    assert(rest.contains(y));
                    if y != x {
                        let m = head.index_of(y);
                        assert(s[m] == y);
                    }
                } else {
                    assert(s[s.len() - 1] == y);
                }
            }
            if s.contains(y) || y == x {
                if y == x || head.contains(y) {
                    assert(rest.contains(y));
                    let k = rest.index_of(y);
                    assert(r[k] == y);
                } else {
                    let k = s.index_of(y);
                    if k < s.len() - 1 {
                        assert(head[k] == y);
                    }
                    assert(r[r.len() - 1] == y);
                }
            }
        }
    } else {
        assert forall|y: T| #[trigger] r.contains(y) <==> (s.contains(y) || y == x) by {
            if s.contains(y) {
                let k = s.index_of(y);
                assert(r[k] == y);
            }
            if y == x {
                assert(r[s.len() as int] == y);
            }
            if r.contains(y) {
                let k = r.index_of(y);
                if k < s.len() {
                    assert(s[k] == y);
                }
            }
        }
    }
}

/// The distinct elements stand in strict order, all come from `s`, and every
/// element of `s` has one that the order does not tell from it.
pub proof fn distinct_sorting_covers<T>(s: Seq<T>, lt: spec_fn(T, T) -> bool)
    requires
        weak_order(lt),
    ensures
        strictly_in_order(distinct_sorted(s, lt), lt),
        forall|y: T| #[trigger] distinct_sorted(s, lt).contains(y) ==> s.contains(y),
        forall|y: T| #[trigger]
            s.contains(y) ==> exists|i: int|
                0 <= i < distinct_sorted(s, lt).len() && !lt(
                    #[trigger] distinct_sorted(s, lt)[i],
                    y,
                ) && !lt(y, distinct_sorted(s, lt)[i]),
    decreases s.len(),
{
    if s.len() > 0 {
        let head = s.drop_last();
        let x = s.last();
        distinct_sorting_covers(head, lt);
        let d = distinct_sorted(head, lt);
        let r = distinct_sorted(s, lt);
        assert(in_order(d, lt)) by {
            assert forall|i: int, j: int| #![trigger d[i], d[j]] 0 <= i < j < d.len() implies !lt(
                d[j],
                d[i],
            ) by {
                assert(lt(d[i], d[j]));
            }
        }
        lemma_inserted_elements(d, x, lt);
        if exists|i: int| 0 <= i < d.len() && !lt(#[trigger] d[i], x) && !lt(x, d[i]) {
            assert forall|y: T| #[trigger] r.contains(y) implies s.contains(y) by {
                assert(head.contains(y));
                let k = head.index_of(y);
                assert(s[k] == y);
            }
        } else {
            lemma_inserted(d, x, lt);
            lemma_inserted_strict(d, x, lt);
            assert forall|y: T| #[trigger] r.contains(y) implies s.contains(y) by {
                if y == x {
                    assert(s[s.len() - 1] == x);
                } else {
                    assert(head.contains(y));
                    let k = head.index_of(y);
                    assert(s[k] == y);
                }
            }
        }
        assert forall|y: T| #[trigger] s.contains(y) implies exists|i: int|
            0 <= i < r.len() && !lt(#[trigger] r[i], y) && !lt(y, r[i]) by {
            let k = s.index_of(y);
            if k < s.len() - 1 {
                assert(head[k] == y);
                assert(head.contains(y));
                let i = choose|i: int| 0 <= i < d.len() && !lt(#[trigger] d[i], y) && !lt(y, d[i]);
                if r != d {
                    assert(d.contains(d[i]));
                    assert(r.contains(d[i]));
                    let m = r.index_of(d[i]);
                    assert(!lt(r[m], y) && !lt(y, r[m]));
                } else {
                    assert(!lt(r[i], y) && !lt(y, r[i]));
                }
            } else if r != d {
                assert(r.contains(x));
                let m = r.index_of(x);
                assert(!lt(r[m], y) && !lt(y, r[m]));
            } else {
                if exists|i: int| 0 <= i < d.len() && !lt(#[trigger] d[i], x) && !lt(x, d[i]) {
                    let i = choose|i: int| 0 <= i < d.len() && !lt(#[trigger] d[i], x) && !lt(x, d[i]);
                    assert(!lt(r[i], y) && !lt(y, r[i]));
                } else {
                    lemma_inserted(d, x, lt);
                }
            }
        }
    }
}

/// Inserting an element that the order tells from all others keeps the order
/// strict.
proof fn lemma_inserted_strict<T>(s: Seq<T>, x: T, lt: spec_fn(T, T) -> bool)
    requires
        weak_order(lt),
        strictly_in_order(s, lt),
        forall|i: int| 0 <= i < s.len() ==> lt(#[trigger] s[i], x) || lt(x, s[i]),
    ensures
        strictly_in_order(inserted(s, x, lt), lt),
    decreases s.len(),
{
    let r = inserted(s, x, lt);
    if s.len() == 0 {
    } else if lt(x, s.last()) {
        let head = s.drop_last();
        assert(strictly_in_order(head, lt)) by {
            assert forall|i: int, j: int| #![trigger head[i], head[j]] 0 <= i < j < head.len() implies lt(
                head[i],
                head[j],
            ) by {
                assert(lt(s[i], s[j]));
            }
        }
        assert forall|i: int| 0 <= i < head.len() implies lt(#[trigger] head[i], x) || lt(x, head[i]) by {
            assert(lt(s[i], x) || lt(x, s[i]));
        }
        lemma_inserted_strict(head, x, lt);
        lemma_inserted_elements(head, x, lt);
        let rest = inserted(head, x, lt);
        assert forall|i: int, j: int| #![trigger r[i], r[j]] 0 <= i < j < r.len() implies lt(
            r[i],
            r[j],
        ) by {
            if j < rest.len() {
                assert(r[i] == rest[i] && r[j] == rest[j]);
            } else {
                assert(rest.contains(rest[i]));
                if rest[i] != x {
                    let k = head.index_of(rest[i]);
                    assert(lt(s[k], s[s.len() - 1]));
                }
            }
        }
    } else {
        assert forall|i: int, j: int| #![trigger r[i], r[j]] 0 <= i < j < r.len() implies lt(
            r[i],
            r[j],
        ) by {
            if j < s.len() {
                assert(lt(s[i], s[j]));
            } else {
                assert(lt(s[s.len() - 1], x));
                if i < s.len() - 1 {
                    assert(lt(s[i], s[s.len() - 1]));
                    assert(lt(s[i], x) || lt(x, s[s.len() - 1]));
                }
            }
        }
    }
}

/// Moves all elements into a list in the opposite order, so that they can be
/// taken from its end one by one.
pub fn reversed<T>(v: Vec<T>) -> (r: Vec<T>)
    ensures
        r@.len() == v@.len(),
        forall|j: int| 0 <= j < r@.len() ==> #[trigger] r@[j] == v@[v@.len() - 1 - j],
{
    let ghost all = v@;
    let mut v = v;
    let mut out: Vec<T> = Vec::new();
    while v.len() > 0
        invariant
            v@.len() + out@.len() == all.len(),
            v@ == all.take(v@.len() as int),
            forall|j: int| 0 <= j < out@.len() ==> #[trigger] out@[j] == all[all.len() - 1 - j],
        decreases v@.len(),
    {
        let x = v.pop().unwrap();
        proof {
            assert(v@ =~= all.take(v@.len() as int));
        }
        out.push(x);
    }
    out
}

/// Sorts `v`; elements that the order does not tell apart keep their places
/// relative to each other.
pub fn sort<T, F: Fn(&T, &T) -> bool>(v: Vec<T>, less: F, Ghost(lt): Ghost<
    spec_fn(T, T) -> bool,
>) -> (r: Vec<T>)
    requires
        forall|a: T, b: T| #[trigger] less.requires((&a, &b)),
        forall|a: T, b: T, c: bool| #[trigger] less.ensures((&a, &b), c) ==> c == lt(a, b),
    ensures
        r@ == sorted(v@, lt),
{
    let ghost all = v@;
    let n: usize = v.len();
    let mut back = reversed(v);
    let mut out: Vec<T> = Vec::new();
    let mut k: usize = 0;
    while k < n
        invariant
            k <= n,
            n == all.len(),
            back@.len() == n - k,
            forall|j: int| 0 <= j < back@.len() ==> #[trigger] back@[j] == all[all.len() - 1 - j],
            forall|a: T, b: T| #[trigger] less.requires((&a, &b)),
            forall|a: T, b: T, c: bool| #[trigger] less.ensures((&a, &b), c) ==> c == lt(a, b),
            out@ == sorted(all.take(k as int), lt),
        decreases n - k,
    {
        let x = back.pop().unwrap();
        let ghost s = out@;
        proof {
            assert(x == all[k as int]);
            assert(all.take(k + 1).drop_last() =~= all.take(k as int));
            assert(all.take(k + 1).last() == x);
            assert(s.take(s.len() as int) =~= s);
            assert(inserted(s, x, lt) + s.skip(s.len() as int) =~= inserted(s, x, lt));
        }
        let mut i: usize = out.len();
        while i > 0 && less(&x, &out[i - 1])
            invariant
                i <= out@.len(),
                s == out@,
                forall|a: T, b: T| #[trigger] less.requires((&a, &b)),
                forall|a: T, b: T, c: bool| #[trigger]
                    less.ensures((&a, &b), c) ==> c == lt(a, b),
                inserted(s, x, lt) == inserted(s.take(i as int), x, lt) + s.skip(i as int),
            decreases i,
        {
            proof {
                lemma_insert_step(s, x, lt, i as int);
            }
            i = i - 1;
        }
        proof {
            lemma_insert_end(s, x, lt, i as int);
        }
        out.insert(i, x);
        k = k + 1;
    }
    proof {
        assert(all.take(n as int) =~= all);
    }
    out
}

/// Sorting commutes with a map that keeps the order.
pub proof fn lemma_sorted_map<T, U>(
    s: Seq<T>,
    lt: spec_fn(T, T) -> bool,
    f: spec_fn(T) -> U,
    lu: spec_fn(U, U) -> bool,
)
    requires
        forall|a: T, b: T| #[trigger] lt(a, b) == lu(f(a), f(b)),
    ensures
        sorted(s, lt).map_values(f) == sorted(s.map_values(f), lu),
    decreases s.len(),
{
    if s.len() > 0 {
        lemma_sorted_map(s.drop_last(), lt, f, lu);
        lemma_inserted_map(sorted(s.drop_last(), lt), s.last(), lt, f, lu);
        assert(s.map_values(f).drop_last() =~= s.drop_last().map_values(f));
        assert(s.map_values(f).last() == f(s.last()));
    } else {
        assert(sorted(s, lt).map_values(f) =~= sorted(s.map_values(f), lu));
    }
}

proof fn lemma_inserted_map<T, U>(
    s: Seq<T>,
    x: T,
    lt: spec_fn(T, T) -> bool,
    f: spec_fn(T) -> U,
    lu: spec_fn(U, U) -> bool,
)
    requires
        forall|a: T, b: T| #[trigger] lt(a, b) == lu(f(a), f(b)),
    ensures
        inserted(s, x, lt).map_values(f) == inserted(s.map_values(f), f(x), lu),
    decreases s.len(),
{
    let m = s.map_values(f);
    if s.len() == 0 {
        assert(inserted(s, x, lt).map_values(f) =~= seq![f(x)]);
    } else {
        assert(m.last() == f(s.last()));
        assert(lt(x, s.last()) == lu(f(x), m.last()));
        if lt(x, s.last()) {
            lemma_inserted_map(s.drop_last(), x, lt, f, lu);
            assert(m.drop_last() =~= s.drop_last().map_values(f));
            let rest = inserted(s.drop_last(), x, lt);
            assert(rest.push(s.last()).map_values(f) =~= rest.map_values(f).push(f(s.last())));
        } else {
            assert(s.push(x).map_values(f) =~= m.push(f(x)));
        }
    }
}

/// Keeps the elements whose mark is set; the marks follow the predicate `p`.
pub fn retain_marked<T>(v: Vec<T>, keep: &Vec<bool>, Ghost(p): Ghost<spec_fn(T) -> bool>) -> (r: Vec<
    T,
>)
    requires
        keep@.len() == v@.len(),
        forall|i: int| 0 <= i < v@.len() ==> keep@[i] == p(#[trigger] v@[i]),
    ensures
        r@ == v@.filter(p),
{
    let ghost all = v@;
    let n: usize = v.len();
    let mut back = reversed(v);
    let mut out: Vec<T> = Vec::new();
    let mut i: usize = 0;
    proof {
        assert(all.take(0).filter(p) =~= Seq::empty()) by {
            reveal(Seq::filter);
        }
    }
    while i < n
        invariant
            i <= n,
            n == all.len(),
            keep@.len() == n,
            back@.len() == n - i,
            forall|j: int| 0 <= j < back@.len() ==> #[trigger] back@[j] == all[all.len() - 1 - j],
            forall|j: int| 0 <= j < all.len() ==> keep@[j] == p(#[trigger] all[j]),
            out@ == all.take(i as int).filter(p),
        decreases n - i,
    {
        let x = back.pop().unwrap();
        proof {
            assert(x == all[i as int]);
            crate::text::lemma_filter_step(all, p, i as int);
        }
        if keep[i] {
            out.push(x);
        }
        i = i + 1;
    }
    proof {
        assert(all.take(n as int) =~= all);
    }
    out
}

/// Filtering commutes with a map that keeps the predicate.
pub proof fn lemma_filter_map<T, U>(
    s: Seq<T>,
    p: spec_fn(T) -> bool,
    f: spec_fn(T) -> U,
    q: spec_fn(U) -> bool,
)
    requires
        forall|a: T| #[trigger] p(a) == q(f(a)),
    ensures
        s.filter(p).map_values(f) == s.map_values(f).filter(q),
    decreases s.len(),
{
    reveal(Seq::filter);
    let m = s.map_values(f);
    if s.len() > 0 {
        lemma_filter_map(s.drop_last(), p, f, q);
        assert(m.drop_last() =~= s.drop_last().map_values(f));
        assert(m.last() == f(s.last()));
        assert(p(s.last()) == q(f(s.last())));
        let head = s.drop_last().filter(p);
        assert(head.push(s.last()).map_values(f) =~= head.map_values(f).push(f(s.last())));
    } else {
        assert(s.filter(p).map_values(f) =~= m.filter(q));
    }
}

/// A filter keeps exactly the elements that satisfy the predicate.
pub proof fn lemma_filter_member<T>(s: Seq<T>, p: spec_fn(T) -> bool, x: T)
    ensures
        s.filter(p).contains(x) <==> s.contains(x) && p(x),
    decreases s.len(),
{
    reveal(Seq::filter);
    if s.len() > 0 {
        let head = s.drop_last();
        lemma_filter_member(head, p, x);
        assert(s =~= head.push(s.last()));
        if s.contains(x) && !head.contains(x) {
            let i = s.index_of(x);
            assert(i == s.len() - 1) by {
                if i < s.len() - 1 {
                    assert(head[i] == x);
                }
            }
        }
        if head.contains(x) {
            let i = head.index_of(x);
            assert(s[i] == x);
        }
        let kept = head.filter(p);
        if p(s.last()) {
            assert(s.filter(p) == kept.push(s.last()));
            if kept.push(s.last()).contains(x) {
                let i = kept.push(s.last()).index_of(x);
                if i < kept.len() {
                    assert(kept[i] == x);
                } else {
                    assert(s[s.len() - 1] == x);
                }
            }
            if kept.contains(x) {
                let i = kept.index_of(x);
                assert(kept.push(s.last())[i] == x);
            }
            if x == s.last() {
                assert(kept.push(s.last())[kept.len() as int] == x);
            }
        }
    } else {
        assert(s.filter(p) =~= s);
    }
}

proof fn lemma_filter_push<T>(s: Seq<T>, x: T, p: spec_fn(T) -> bool)
    ensures
        s.push(x).filter(p) == (if p(x) {
            s.filter(p).push(x)
        } else {
            s.filter(p)
        }),
{
    reveal(Seq::filter);
    assert(s.push(x).drop_last() =~= s);
    assert(s.push(x).last() == x);
}

proof fn lemma_inserted_ties<T>(s: Seq<T>, y: T, lt: spec_fn(T, T) -> bool, x: T)
    requires
        weak_order(lt),
    ensures
        ({
            let tied = |z: T| !lt(x, z) && !lt(z, x);
            inserted(s, y, lt).filter(tied) == (if tied(y) {
                s.filter(tied).push(y)
            } else {
                s.filter(tied)
            })
        }),
    decreases s.len(),
{
    let tied = |z: T| !lt(x, z) && !lt(z, x);
    if s.len() == 0 {
        lemma_filter_push(s, y, tied);
        assert(seq![y] =~= s.push(y));
    } else if lt(y, s.last()) {
        lemma_inserted_ties(s.drop_last(), y, lt, x);
        lemma_filter_push(inserted(s.drop_last(), y, lt), s.last(), tied);
        lemma_filter_push(s.drop_last(), s.last(), tied);
        assert(s =~= s.drop_last().push(s.last()));
        if tied(y) {
            assert(lt(y, x) || lt(x, s.last()));
            assert(!tied(s.last()));
        }
    } else {
        lemma_filter_push(s, y, tied);
    }
}

/// Sorting keeps the elements that the order does not tell apart from each other
/// in the order they came in.
pub proof fn sorting_keeps_ties_in_place<T>(s: Seq<T>, lt: spec_fn(T, T) -> bool, x: T)
    requires
        weak_order(lt),
    ensures
        sorted(s, lt).filter(|z: T| !lt(x, z) && !lt(z, x)) == s.filter(
            |z: T| !lt(x, z) && !lt(z, x),
        ),
    decreases s.len(),
{
    let tied = |z: T| !lt(x, z) && !lt(z, x);
    if s.len() > 0 {
        let head = s.drop_last();
        sorting_keeps_ties_in_place(head, lt, x);
        lemma_inserted_ties(sorted(head, lt), s.last(), lt, x);
        lemma_filter_push(head, s.last(), tied);
        assert(s =~= head.push(s.last()));
    } else {
        assert(sorted(s, lt) =~= s);
    }
}

} // verus!
