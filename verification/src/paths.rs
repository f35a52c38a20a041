//! Paths as text, read component by component.
//!
//! Separators are `/`; where a platform writes another one, its paths are
//! brought into this spelling before they come here. Repeated separators, trailing separators and `.` behind
//! the first component carry no meaning, so two texts can be the same path.
use crate::order::{
    included, lemma_insert_end, lemma_insert_step, strictly_in_order, weak_order, distinct_sorted,
    distinct_sorting_covers, inserted,
};
use crate::text::{
    begins, joined, join, lemma_text_lt_asymmetric, lemma_text_lt_total, lemma_text_lt_transitive,
    less, only, pieces, same, split_on, starts_with, text_lt, texts,
};
use vstd::prelude::*;
use vstd::string::*;

verus! {

/// Sort key of a component. The leading digit puts the root before `.`, that
/// before `..`, and that before every name.
pub open spec fn component_key(piece: Seq<char>) -> Seq<char> {
    if piece == "."@ {
        "2"@
    } else if piece == ".."@ {
        "3"@
    } else {
        "4"@ + piece
    }
}

/// Keys of the components that the pieces of a path make, from piece `from` on.
pub open spec fn keys_from(p: Seq<Seq<char>>, from: int) -> Seq<Seq<char>>
    decreases p.len() - from,
{
    if from < 0 || from >= p.len() {
        Seq::empty()
    } else if p[from].len() == 0 || (p[from] == "."@ && from > 0) {
        keys_from(p, from + 1)
    } else {
        seq![component_key(p[from])] + keys_from(p, from + 1)
    }
}

/// Keys of the components of a path.
pub open spec fn path_key(path: Seq<char>) -> Seq<Seq<char>> {
    if begins(path, "/"@) {
        seq!["1"@] + keys_from(pieces(path, only('/')), 0)
    } else {
        keys_from(pieces(path, only('/')), 0)
    }
}

/// Lexicographic order on lists of texts.
pub open spec fn list_lt(a: Seq<Seq<char>>, b: Seq<Seq<char>>) -> bool
    decreases a.len(),
{
    if b.len() == 0 {
        false
    } else if a.len() == 0 {
        true
    } else if a[0] != b[0] {
        text_lt(a[0], b[0])
    } else {
        list_lt(a.skip(1), b.skip(1))
    }
}

/// Order of paths, component by component.
pub open spec fn path_lt(a: Seq<char>, b: Seq<char>) -> bool {
    list_lt(path_key(a), path_key(b))
}

/// The order of paths as a relation.
pub open spec fn path_order() -> spec_fn(Seq<char>, Seq<char>) -> bool {
    |a: Seq<char>, b: Seq<char>| path_lt(a, b)
}

proof fn lemma_list_lt_irreflexive(a: Seq<Seq<char>>)
    ensures
        !list_lt(a, a),
    decreases a.len(),
{
    if a.len() > 0 {
        lemma_list_lt_irreflexive(a.skip(1));
    }
}

proof fn lemma_list_lt_asymmetric(a: Seq<Seq<char>>, b: Seq<Seq<char>>)
    requires
        list_lt(a, b),
    ensures
        !list_lt(b, a),
    decreases a.len(),
{
    if a.len() > 0 && b.len() > 0 {
        if a[0] == b[0] {
            lemma_list_lt_asymmetric(a.skip(1), b.skip(1));
        } else {
            lemma_text_lt_asymmetric(a[0], b[0]);
        }
    }
}

proof fn lemma_list_lt_splits(a: Seq<Seq<char>>, b: Seq<Seq<char>>, c: Seq<Seq<char>>)
    requires
        list_lt(a, c),
    ensures
        list_lt(a, b) || list_lt(b, c),
    decreases a.len(),
{
    if a.len() > 0 && b.len() > 0 && c.len() > 0 {
        if a[0] == b[0] && b[0] == c[0] {
            lemma_list_lt_splits(a.skip(1), b.skip(1), c.skip(1));
        } else if a[0] == c[0] {
            lemma_text_lt_total(a[0], b[0]);
        } else {
            lemma_text_lt_total(a[0], b[0]);
            lemma_text_lt_total(b[0], c[0]);
            if text_lt(b[0], a[0]) {
                lemma_text_lt_transitive(b[0], a[0], c[0]);
            }
        }
    }
}

/// The order of paths is a strict weak order.
pub proof fn path_order_is_weak()
    ensures
        weak_order(path_order()),
{
    let lt = path_order();
    assert forall|a: Seq<char>| !#[trigger] lt(a, a) by {
        lemma_list_lt_irreflexive(path_key(a));
    }
    assert forall|a: Seq<char>, b: Seq<char>, c: Seq<char>| #[trigger]
        lt(a, c) implies #[trigger] lt(a, b) || lt(b, c) by {
        lemma_list_lt_splits(path_key(a), path_key(b), path_key(c));
    }
    assert forall|a: Seq<char>, b: Seq<char>| #[trigger] lt(a, b) implies !lt(b, a) by {
        lemma_list_lt_asymmetric(path_key(a), path_key(b));
    }
}

/// Keys of the components of a path.
pub fn key_of(path: &str) -> (r: Vec<String>)
    ensures
        texts(r@) == path_key(path@),
{
    let parts = split_on(path, '/');
    let ghost p = pieces(path@, only('/'));
    let mut out: Vec<String> = Vec::new();
    let rooted = starts_with(path, "/");
    let ghost start: Seq<Seq<char>> = if begins(path@, "/"@) { seq!["1"@] } else { Seq::empty() };
    if rooted {
        out.push("1".to_owned());
    }
    proof {
        assert(texts(out@) =~= start);
        assert(start + keys_from(p, 0) =~= path_key(path@));
    }
    let mut i: usize = 0;
    while i < parts.len()
        invariant
            i <= parts@.len(),
            texts(parts@) == p,
            path_key(path@) == texts(out@) + keys_from(p, i as int),
        decreases parts@.len() - i,
    {
        proof {
            assert(p[i as int] == parts@[i as int]@);
        }
        let dot = same(parts[i].as_str(), ".");
        if !(parts[i].as_str().is_empty() || (dot && i > 0)) {
            let key = if dot {
                "2".to_owned()
            } else if same(parts[i].as_str(), "..") {
                "3".to_owned()
            } else {
                let mut k = "4".to_owned();
                k.append(parts[i].as_str());
                k
            };
            proof {
                assert(texts(out@.push(key)) =~= texts(out@).push(key@));
                assert(texts(out@).push(key@) + keys_from(p, i + 1) =~= texts(out@) + (seq![
                    component_key(p[i as int]),
                ] + keys_from(p, i + 1)));
            }
            out.push(key);
        }
        i = i + 1;
    }
    proof {
        assert(texts(out@) + keys_from(p, parts@.len() as int) =~= texts(out@));
    }
    out
}

/// Whether path `a` stands before path `b`.
pub fn path_less(a: &str, b: &str) -> (r: bool)
    ensures
        r == path_lt(a@, b@),
{
    let x = key_of(a);
    let y = key_of(b);
    let ghost xs = texts(x@);
    let ghost ys = texts(y@);
    let mut i: usize = 0;
    proof {
        assert(xs.skip(0) =~= xs);
        assert(ys.skip(0) =~= ys);
    }
    while i < x.len() && i < y.len() && same(x[i].as_str(), y[i].as_str())
        invariant
            i <= x@.len(),
            i <= y@.len(),
            xs == texts(x@),
            ys == texts(y@),
            list_lt(xs, ys) == list_lt(xs.skip(i as int), ys.skip(i as int)),
        decreases x@.len() - i,
    {
        proof {
            assert(xs.skip(i as int)[0] == x@[i as int]@);
            assert(ys.skip(i as int)[0] == y@[i as int]@);
            assert(xs.skip(i as int).skip(1) =~= xs.skip(i + 1));
            assert(ys.skip(i as int).skip(1) =~= ys.skip(i + 1));
        }
        i = i + 1;
    }
    if i >= y.len() {
        false
    } else if i >= x.len() {
        true
    } else {
        proof {
            assert(xs.skip(i as int)[0] == x@[i as int]@);
            assert(ys.skip(i as int)[0] == y@[i as int]@);
        }
        less(x[i].as_str(), y[i].as_str())
    }
}

/// The given paths in order, each path once, in the spelling that came first.
pub open spec fn path_set(s: Seq<Seq<char>>) -> Seq<Seq<char>> {
    distinct_sorted(s, path_order())
}

/// Puts `path` into an ordered list of paths unless it is there.
pub fn add_path(list: &mut Vec<String>, path: &str)
    ensures
        texts(final(list)@) == included(texts(old(list)@), path@, path_order()),
{
    let ghost s = texts(list@);
    let ghost lt = path_order();
    let mut j: usize = 0;
    while j < list.len()
        invariant
            j <= list@.len(),
            s == texts(list@),
            *list == *old(list),
            lt == path_order(),
            forall|k: int| 0 <= k < j ==> lt(#[trigger] s[k], path@) || lt(path@, s[k]),
        decreases list@.len() - j,
    {
        proof {
            assert(s[j as int] == list@[j as int]@);
        }
        if !path_less(list[j].as_str(), path) && !path_less(path, list[j].as_str()) {
            return ;
        }
        j = j + 1;
    }
    let mut i: usize = list.len();
    proof {
        assert(s.take(s.len() as int) =~= s);
        assert(inserted(s, path@, lt) + s.skip(s.len() as int) =~= inserted(s, path@, lt));
    }
    while i > 0 && path_less(path, list[i - 1].as_str())
        invariant
            i <= list@.len(),
            s == texts(list@),
            *list == *old(list),
            lt == path_order(),
            inserted(s, path@, lt) == inserted(s.take(i as int), path@, lt) + s.skip(i as int),
        decreases i,
    {
        proof {
            assert(s[i - 1] == list@[i - 1]@);
            lemma_insert_step(s, path@, lt, i as int);
        }
        i = i - 1;
    }
    proof {
        if i > 0 {
            assert(s[i - 1] == list@[i - 1]@);
        }
        lemma_insert_end(s, path@, lt, i as int);
    }
    list.insert(i, path.to_owned());
    proof {
        assert(texts(list@) =~= s.insert(i as int, path@));
    }
}

/// The given paths in order, each path once.
pub fn ordered_paths(all: &Vec<String>) -> (r: Vec<String>)
    ensures
        texts(r@) == path_set(texts(all@)),
{
    let mut out: Vec<String> = Vec::new();
    let ghost s = texts(all@);
    let mut i: usize = 0;
    proof {
        assert(texts(out@) =~= Seq::empty());
    }
    while i < all.len()
        invariant
            i <= all@.len(),
            s == texts(all@),
            texts(out@) == path_set(s.take(i as int)),
        decreases all@.len() - i,
    {
        proof {
            assert(s.take(i + 1).drop_last() =~= s.take(i as int));
            assert(s.take(i + 1).last() == all@[i as int]@);
        }
        add_path(&mut out, all[i].as_str());
        i = i + 1;
    }
    proof {
        assert(s.take(all@.len() as int) =~= s);
    }
    out
}

/// The list of distinct paths is strictly ordered, holds only paths that were
/// given, and leaves none of them out.
pub proof fn path_set_is_exact(s: Seq<Seq<char>>)
    ensures
        strictly_in_order(path_set(s), path_order()),
        forall|y: Seq<char>| #[trigger] path_set(s).contains(y) ==> s.contains(y),
        forall|y: Seq<char>| #[trigger]
            s.contains(y) ==> exists|i: int|
                0 <= i < path_set(s).len() && !path_lt(#[trigger] path_set(s)[i], y) && !path_lt(
                    y,
                    path_set(s)[i],
                ),
{
    path_order_is_weak();
    distinct_sorting_covers(s, path_order());
    assert forall|y: Seq<char>| #[trigger] s.contains(y) implies exists|i: int|
        0 <= i < path_set(s).len() && !path_lt(#[trigger] path_set(s)[i], y) && !path_lt(
            y,
            path_set(s)[i],
        ) by {
        let lt = path_order();
        let i = choose|i: int|
            0 <= i < path_set(s).len() && !lt(#[trigger] path_set(s)[i], y) && !lt(
                y,
                path_set(s)[i],
            );
        assert(!path_lt(path_set(s)[i], y) && !path_lt(y, path_set(s)[i]));
    }
}

/// Last component of a path when it is a name: the text behind the last
/// separator of the path without its trailing separators.
pub open spec fn file_name_spec(path: Seq<char>) -> Option<Seq<char>> {
    let k = path_key(path);
    if k.len() > 0 && begins(k.last(), "4"@) {
        Some(k.last().skip(1))
    } else {
        None
    }
}

/// Last component of a path when it is a name.
pub fn file_name(path: &str) -> (r: Option<String>)
    ensures
        opt_eq(r, file_name_spec(path@)),
{
    let k = key_of(path);
    if k.len() == 0 {
        return None;
    }
    proof {
        assert(texts(k@).last() == k@[k@.len() - 1]@);
        reveal_strlit("4");
    }
    let last = crate::text::chars_of(k[k.len() - 1].as_str());
    if starts_with(k[k.len() - 1].as_str(), "4") {
        let name = crate::text::string_range(&last, 1, last.len());
        proof {
            assert(name@ =~= last@.skip(1));
        }
        Some(name)
    } else {
        None
    }
}

/// An optional text against optional plain data.
pub open spec fn opt_eq(r: Option<String>, s: Option<Seq<char>>) -> bool {
    match r {
        Some(t) => s == Some(t@),
        None => s is None,
    }
}

/// Position of the last `c` in `s`, or -1.
pub open spec fn last_at(s: Seq<char>, c: char, to: int) -> int
    decreases to,
{
    if to <= 0 {
        -1
    } else if s[to - 1] == c {
        to - 1
    } else {
        last_at(s, c, to - 1)
    }
}

/// Extension of a path: what follows the last dot of its file name, unless
/// that dot is the first character.
pub open spec fn extension_spec(path: Seq<char>) -> Option<Seq<char>> {
    match file_name_spec(path) {
        Some(n) => {
            let dot = last_at(n, '.', n.len() as int);
            if dot > 0 {
                Some(n.skip(dot + 1))
            } else {
                None
            }
        },
        None => None,
    }
}

/// Whether a path has the extension `ext`.
pub fn has_extension(path: &str, ext: &str) -> (r: bool)
    ensures
        r == (extension_spec(path@) == Some(ext@)),
{
    match file_name(path) {
        None => false,
        Some(n) => {
            let v = crate::text::chars_of(n.as_str());
            let mut to: usize = v.len();
            while to > 0 && v[to - 1] != '.'
                invariant
                    to <= v@.len(),
                    last_at(v@, '.', v@.len() as int) == last_at(v@, '.', to as int),
                decreases to,
            {
                to = to - 1;
            }
            if to < 2 {
                return false;
            }
            let e = crate::text::string_range(&v, to, v.len());
            proof {
                assert(e@ =~= v@.skip(to as int));
            }
            same(e.as_str(), ext)
        },
    }
}

/// Component text for a key.
pub open spec fn key_text(k: Seq<char>) -> Seq<char> {
    if k == "1"@ {
        ""@
    } else if k == "2"@ {
        "."@
    } else if k == "3"@ {
        ".."@
    } else {
        k.skip(1)
    }
}

/// `path` below `prefix`, component by component; `None` when it is not below
/// it. The empty prefix leaves the path as it is.
pub open spec fn below_prefix(path: Seq<char>, prefix: Seq<char>) -> Option<Seq<char>> {
    let p = path_key(path);
    let k = path_key(prefix);
    if prefix.len() == 0 {
        Some(path)
    } else if k.len() <= p.len() && p.take(k.len() as int) == k {
        Some(
            joined(
                p.skip(k.len() as int).map_values(|t: Seq<char>| key_text(t)),
                "/"@,
            ),
        )
    } else {
        None
    }
}

/// Component text for a key.
fn text_of_key(k: &str) -> (r: String)
    requires
        k@.len() > 0,
    ensures
        r@ == key_text(k@),
{
    if same(k, "1") {
        "".to_owned()
    } else if same(k, "2") {
        ".".to_owned()
    } else if same(k, "3") {
        "..".to_owned()
    } else {
        let v = crate::text::chars_of(k);
        let r = crate::text::string_range(&v, 1, v.len());
        proof {
            assert(r@ =~= v@.skip(1));
        }
        r
    }
}

proof fn lemma_keys_nonempty(p: Seq<Seq<char>>, from: int)
    ensures
        forall|i: int| 0 <= i < keys_from(p, from).len() ==> (#[trigger] keys_from(p, from)[i]).len() > 0,
    decreases p.len() - from,
{
    reveal_strlit("2");
    reveal_strlit("3");
    reveal_strlit("4");
    assert("2"@.len() == 1);
    assert("3"@.len() == 1);
    assert("4"@.len() == 1);
    if 0 <= from < p.len() {
        lemma_keys_nonempty(p, from + 1);
        let rest = keys_from(p, from + 1);
        let all = keys_from(p, from);
        assert forall|i: int| 0 <= i < all.len() implies (#[trigger] all[i]).len() > 0 by {
            if all != rest {
                assert(all =~= seq![component_key(p[from])] + rest);
                if i > 0 {
                    assert(all[i] == rest[i - 1]);
                }
            }
        }
    }
}

proof fn lemma_path_key_nonempty(path: Seq<char>)
    ensures
        forall|i: int| 0 <= i < path_key(path).len() ==> (#[trigger] path_key(path)[i]).len() > 0,
{
    reveal_strlit("1");
    assert("1"@.len() == 1);
    lemma_keys_nonempty(pieces(path, only('/')), 0);
}

/// `path` below `prefix`.
pub fn worktree_to_root_relative(path: &str, prefix: &str) -> (r: Option<String>)
    ensures
        opt_eq(r, below_prefix(path@, prefix@)),
{
    if prefix.is_empty() {
        return Some(path.to_owned());
    }
    let p = key_of(path);
    let k = key_of(prefix);
    let ghost ps = texts(p@);
    let ghost ks = texts(k@);
    if k.len() > p.len() {
        return None;
    }
    let mut i: usize = 0;
    while i < k.len()
        invariant
            i <= k@.len() <= p@.len(),
            ps == texts(p@),
            ks == texts(k@),
            ks == path_key(prefix@),
            ps == path_key(path@),
            prefix@.len() > 0,
            forall|j: int| 0 <= j < i ==> ps[j] == ks[j],
        decreases k@.len() - i,
    {
        proof {
            assert(ps[i as int] == p@[i as int]@);
            assert(ks[i as int] == k@[i as int]@);
        }
        if !same(p[i].as_str(), k[i].as_str()) {
            proof {
                assert(ps.take(ks.len() as int)[i as int] != ks[i as int]);
            }
            return None;
        }
        i = i + 1;
    }
    proof {
        assert(ps.take(ks.len() as int) =~= ks);
        lemma_path_key_nonempty(path@);
    }
    let mut rest: Vec<String> = Vec::new();
    let ghost want = ps.skip(ks.len() as int).map_values(|t: Seq<char>| key_text(t));
    let mut j: usize = k.len();
    while j < p.len()
        invariant
            k@.len() <= j <= p@.len(),
            ps == texts(p@),
            ks.len() == k@.len(),
            want == ps.skip(ks.len() as int).map_values(|t: Seq<char>| key_text(t)),
            texts(rest@) == want.take(j - k@.len()),
            forall|i: int| 0 <= i < ps.len() ==> (#[trigger] ps[i]).len() > 0,
        decreases p@.len() - j,
    {
        proof {
            assert(ps[j as int] == p@[j as int]@);
            assert(want[j - k@.len()] == key_text(p@[j as int]@));
            assert(want.take(j + 1 - k@.len()) =~= want.take(j - k@.len()).push(
                want[j - k@.len()],
            ));
        }
        let t = text_of_key(p[j].as_str());
        proof {
            assert(texts(rest@.push(t)) =~= texts(rest@).push(t@));
        }
        rest.push(t);
        j = j + 1;
    }
    proof {
        assert(want.take(want.len() as int) =~= want);
    }
    Some(join(&rest, "/"))
}

/// Whether two texts are the same path.
pub open spec fn same_path(a: Seq<char>, b: Seq<char>) -> bool {
    path_key(a) == path_key(b)
}

/// Whether two texts are the same path.
pub fn is_same_path(a: &str, b: &str) -> (r: bool)
    ensures
        r == same_path(a@, b@),
{
    let x = key_of(a);
    let y = key_of(b);
    let ghost xs = texts(x@);
    let ghost ys = texts(y@);
    proof {
        assert(xs.len() == x@.len());
        assert(ys.len() == y@.len());
    }
    if x.len() != y.len() {
        return false;
    }
    let mut i: usize = 0;
    while i < x.len()
        invariant
            i <= x@.len(),
            x@.len() == y@.len(),
            xs == texts(x@),
            ys == texts(y@),
            xs == path_key(a@),
            ys == path_key(b@),
            forall|j: int| 0 <= j < i ==> xs[j] == ys[j],
        decreases x@.len() - i,
    {
        proof {
            assert(xs[i as int] == x@[i as int]@);
            assert(ys[i as int] == y@[i as int]@);
        }
        if !same(x[i].as_str(), y[i].as_str()) {
            return false;
        }
        i = i + 1;
    }
    proof {
        assert(xs =~= ys);
    }
    true
}

/// Paths that the order does not tell apart are the same path.
pub proof fn unordered_paths_are_the_same(a: Seq<char>, b: Seq<char>)
    ensures
        (!path_lt(a, b) && !path_lt(b, a)) <==> same_path(a, b),
{
    lemma_list_lt_total(path_key(a), path_key(b));
    lemma_list_lt_irreflexive(path_key(a));
}

proof fn lemma_list_lt_total(a: Seq<Seq<char>>, b: Seq<Seq<char>>)
    ensures
        list_lt(a, b) || list_lt(b, a) || a == b,
    decreases a.len(),
{
    if a.len() > 0 && b.len() > 0 {
        if a[0] == b[0] {
            lemma_list_lt_total(a.skip(1), b.skip(1));
            if a.skip(1) == b.skip(1) {
                assert(a =~= seq![a[0]] + a.skip(1));
                assert(b =~= seq![b[0]] + b.skip(1));
            }
        } else {
            lemma_text_lt_total(a[0], b[0]);
        }
    } else if a.len() == 0 && b.len() == 0 {
        assert(a =~= b);
    }
}

/// `rel` below `dir`: an absolute `rel` stands alone, and a separator comes
/// between the two unless `dir` is empty or ends in one.
pub open spec fn path_joined(dir: Seq<char>, rel: Seq<char>) -> Seq<char> {
    if begins(rel, "/"@) {
        rel
    } else if dir.len() == 0 || dir.last() == '/' {
        dir + rel
    } else {
        dir + "/"@ + rel
    }
}

/// `rel` below `dir`.
pub fn join_path(dir: &str, rel: &str) -> (r: String)
    ensures
        r@ == path_joined(dir@, rel@),
{
    if starts_with(rel, "/") {
        return rel.to_owned();
    }
    let v = crate::text::chars_of(dir);
    let mut r = dir.to_owned();
    if v.len() > 0 && v[v.len() - 1] != '/' {
        r.append("/");
    }
    r.append(rel);
    r
}

/// Whether a text can be the name of a component: it is neither empty nor `.`
/// nor `..`, and holds no separator.
pub open spec fn is_name(t: Seq<char>) -> bool {
    &&& t.len() > 0
    &&& t != "."@
    &&& t != ".."@
    &&& forall|i: int| 0 <= i < t.len() ==> #[trigger] t[i] != '/'
}

proof fn lemma_one_piece(t: Seq<char>)
    requires
        forall|i: int| 0 <= i < t.len() ==> #[trigger] t[i] != '/',
    ensures
        pieces(t, only('/')) == seq![t],
{
    assert forall|j: int| 0 <= j < t.len() implies !only('/')(#[trigger] t[j]) by {}
    crate::text::lemma_first_at_is(t, only('/'), 0, t.len() as int);
    assert(t.subrange(0, t.len() as int) =~= t);
    assert(pieces(t, only('/')) =~= seq![t]);
}

/// Keys of a list with a name at its end.
proof fn lemma_keys_with_name(p: Seq<Seq<char>>, name: Seq<char>, from: int)
    requires
        is_name(name),
        0 <= from <= p.len(),
    ensures
        keys_from(p.push(name), from) == keys_from(p, from).push("4"@ + name),
    decreases p.len() - from,
{
    let q = p.push(name);
    if from < p.len() {
        assert(q[from] == p[from]);
        lemma_keys_with_name(p, name, from + 1);
        assert(keys_from(q, from) =~= keys_from(p, from).push("4"@ + name));
    } else {
        assert(q[from] == name);
        assert(keys_from(q, from + 1) =~= Seq::empty());
        assert(keys_from(q, from) =~= seq!["4"@ + name]);
        assert(keys_from(p, from) =~= Seq::empty());
    }
}

/// A path that ends in a name has that name, alone or below any directory.
pub proof fn paths_end_in_their_name(dir: Seq<char>, name: Seq<char>)
    requires
        is_name(name),
    ensures
        file_name_spec(name) == Some(name),
        file_name_spec(dir + seq!['/'] + name) == Some(name),
        path_key(dir + seq!['/'] + name).len() > 0,
{
    reveal_strlit("4");
    reveal_strlit("/");
    lemma_one_piece(name);
    let none = Seq::<Seq<char>>::empty();
    lemma_keys_with_name(none, name, 0);
    assert(none.push(name) =~= seq![name]);
    assert(!begins(name, "/"@)) by {
        assert(name[0] != '/');
        if begins(name, "/"@) {
            assert(name.subrange(0, 1)[0] == "/"@[0]);
        }
    }
    let key = "4"@ + name;
    assert(key.skip(1) =~= name);
    assert(key.subrange(0, 1) =~= "4"@);
    assert(begins(key, "4"@));
    assert(path_key(name).last() == key);
    let path = dir + seq!['/'] + name;
    crate::text::lemma_pieces_join(dir, '/', name, only('/'), 0);
    let front = pieces(dir, only('/'));
    assert(pieces(path, only('/')) =~= front.push(name));
    lemma_keys_with_name(front, name, 0);
    assert(path_key(path).last() == key);
}

/// The extension is what follows the last dot of the name, unless the name has
/// no other dot than one in front.
pub proof fn extensions_follow_the_last_dot(path: Seq<char>, stem: Seq<char>, ext: Seq<char>)
    requires
        forall|i: int| 0 <= i < ext.len() ==> #[trigger] ext[i] != '.',
    ensures
        file_name_spec(path) == Some(stem + seq!['.'] + ext) && stem.len() > 0 ==> extension_spec(
            path,
        ) == Some(ext),
        file_name_spec(path) == Some(seq!['.'] + ext) ==> extension_spec(path) is None,
        file_name_spec(path) == Some(ext) ==> extension_spec(path) is None,
        file_name_spec(path) is None ==> extension_spec(path) is None,
{
    let n = stem + seq!['.'] + ext;
    lemma_last_at(n, '.', stem.len() as int, n.len() as int);
    assert(n.skip(stem.len() + 1int) =~= ext);
    let m = seq!['.'] + ext;
    lemma_last_at(m, '.', 0, m.len() as int);
    lemma_last_at(ext, '.', -1, ext.len() as int);
}

proof fn lemma_last_at(s: Seq<char>, c: char, at: int, to: int)
    requires
        -1 <= at < to <= s.len() || (at == -1 && to == 0),
        at >= 0 ==> s[at] == c,
        forall|i: int| at < i < to ==> #[trigger] s[i] != c,
    ensures
        last_at(s, c, to) == at,
    decreases to,
{
    if to > 0 && at < to - 1 {
        lemma_last_at(s, c, at, to - 1);
    }
}

/// A path lies below a prefix just where its components begin with those of the
/// prefix.
pub proof fn paths_below_share_the_components(path: Seq<char>, prefix: Seq<char>)
    ensures
        below_prefix(path, prefix) is Some <==> prefix.len() == 0 || path_key(prefix).is_prefix_of(
            path_key(path),
        ),
        prefix.len() == 0 ==> below_prefix(path, prefix) == Some(path),
        path_key(prefix) == path_key(path) && prefix.len() > 0 ==> below_prefix(path, prefix)
            == Some(Seq::<char>::empty()),
{
    let p = path_key(path);
    let k = path_key(prefix);
    if k.len() <= p.len() {
        assert(p.take(k.len() as int) =~= p.subrange(0, k.len() as int));
    }
    if k == p {
        assert(p.take(p.len() as int) =~= p);
        assert(p.skip(p.len() as int).map_values(|t: Seq<char>| key_text(t)) =~= Seq::empty());
    }
}

/// Whether every key of a list is that of a name or of `..`.
spec fn plain_keys(k: Seq<Seq<char>>) -> bool {
    forall|i: int| 0 <= i < k.len() ==> plain_key(#[trigger] k[i])
}

spec fn plain_key(k: Seq<char>) -> bool {
    k == "3"@ || (k == "4"@ + k.skip(1) && k.len() > 1 && is_name(k.skip(1)))
}

proof fn lemma_plain_key_text(k: Seq<char>)
    requires
        plain_key(k),
    ensures
        ({
            let t = key_text(k);
            &&& component_key(t) == k
            &&& t.len() > 0
            &&& t != "."@
            &&& forall|i: int| 0 <= i < t.len() ==> #[trigger] t[i] != '/'
        }),
{
    reveal_strlit("1");
    reveal_strlit("2");
    reveal_strlit("3");
    reveal_strlit("4");
    reveal_strlit(".");
    reveal_strlit("..");
    assert("1"@.len() == 1 && "2"@.len() == 1 && "3"@.len() == 1 && "4"@.len() == 1);
    assert("."@.len() == 1 && ".."@.len() == 2);
    assert("3"@[0] == '3' && "1"@[0] == '1' && "2"@[0] == '2' && "4"@[0] == '4');
    assert(".."@[0] == '.' && ".."@[1] == '.');
}

/// The path of texts joined by separators has their keys.
proof fn lemma_joined_keys(k: Seq<Seq<char>>)
    requires
        plain_keys(k),
        k.len() > 0,
    ensures
        ({
            let texts = k.map_values(|t: Seq<char>| key_text(t));
            &&& pieces(joined(texts, "/"@), only('/')) == texts
            &&& joined(texts, "/"@).len() > 0
            &&& joined(texts, "/"@)[0] != '/'
        }),
    decreases k.len(),
{
    reveal_strlit("/");
    let texts = k.map_values(|t: Seq<char>| key_text(t));
    assert(plain_key(k[k.len() - 1]));
    assert(k.last() == k[k.len() - 1]);
    lemma_plain_key_text(k.last());
    let t = key_text(k.last());
    lemma_one_piece(t);
    if k.len() == 1 {
        assert(texts =~= seq![t]);
        assert(joined(texts, "/"@) == t);
        assert(t[0] != '/');
    } else {
        let head = k.drop_last();
        assert(plain_keys(head)) by {
            assert forall|i: int| 0 <= i < head.len() implies plain_key(#[trigger] head[i]) by {
                assert(head[i] == k[i]);
            }
        }
        lemma_joined_keys(head);
        let front = head.map_values(|t: Seq<char>| key_text(t));
        assert(texts.drop_last() =~= front);
        assert(texts.last() == t);
        let j = joined(front, "/"@);
        assert("/"@ =~= seq!['/']);
        assert(joined(texts, "/"@) == j + seq!['/'] + t);
        crate::text::lemma_pieces_join(j, '/', t, only('/'), 0);
        assert(front + seq![t] =~= texts);
        assert((j + seq!['/'] + t)[0] == j[0]);
    }
}

proof fn lemma_keys_of_texts(k: Seq<Seq<char>>, from: int)
    requires
        plain_keys(k),
        0 <= from <= k.len(),
    ensures
        keys_from(k.map_values(|t: Seq<char>| key_text(t)), from) == k.skip(from),
    decreases k.len() - from,
{
    let texts = k.map_values(|t: Seq<char>| key_text(t));
    if from < k.len() {
        assert(plain_key(k[from]));
        lemma_plain_key_text(k[from]);
        lemma_keys_of_texts(k, from + 1);
        assert(texts[from] == key_text(k[from]));
        assert(seq![k[from]] + k.skip(from + 1) =~= k.skip(from));
    } else {
        assert(k.skip(from) =~= Seq::empty());
        assert(keys_from(texts, from) =~= Seq::empty());
    }
}

/// The keys behind the first piece are those of names and of `..`.
proof fn lemma_keys_are_plain(p: Seq<Seq<char>>, from: int)
    requires
        from > 0,
        forall|i: int, j: int|
            0 <= i < p.len() && 0 <= j < p[i].len() ==> #[trigger] p[i][j] != '/',
    ensures
        plain_keys(keys_from(p, from)),
    decreases p.len() - from,
{
    reveal_strlit("4");
    if from < p.len() {
        lemma_keys_are_plain(p, from + 1);
        let rest = keys_from(p, from + 1);
        let all = keys_from(p, from);
        let key = component_key(p[from]);
        if !(p[from].len() == 0 || p[from] == "."@) {
            assert(all =~= seq![key] + rest);
            assert(plain_key(key)) by {
                if p[from] != ".."@ {
                    assert(key.skip(1) =~= p[from]);
                    assert(is_name(key.skip(1)));
                }
            }
            assert forall|i: int| 0 <= i < all.len() implies plain_key(#[trigger] all[i]) by {
                if i > 0 {
                    assert(all[i] == rest[i - 1]);
                }
            }
        }
    }
}

proof fn lemma_tail_is_plain(path: Seq<char>, n: int)
    requires
        0 < n <= path_key(path).len(),
    ensures
        plain_keys(path_key(path).skip(n)),
{
    let p = pieces(path, only('/'));
    let k = path_key(path);
    assert forall|i: int, j: int|
        0 <= i < p.len() && 0 <= j < p[i].len() implies #[trigger] p[i][j] != '/' by {
        assert(p.contains(p[i]));
        crate::text::pieces_are_the_runs_between_separators(path, only('/'), p[i]);
        let (a, b) = choose|a: int, b: int| #[trigger]
            crate::text::is_run(path, only('/'), a, b) && p[i] == path.subrange(a, b);
        assert(p[i][j] == path[a + j]);
        assert(!only('/')(path[a + j]));
    }
    lemma_keys_are_plain(p, 1);
    let rest = keys_from(p, 1);
    crate::text::lemma_pieces_nonempty(path, only('/'), 0);
    let all = keys_from(p, 0);
    if begins(path, "/"@) {
        reveal_strlit("/");
        assert(path.subrange(0, 1)[0] == '/');
        assert(path[0] == '/');
        crate::text::lemma_first_at_is(path, only('/'), 0, 0);
        assert(p[0].len() == 0);
        assert(all == rest);
        assert(k =~= seq!["1"@] + rest);
    } else {
        assert(k == all);
    }
    let off = k.len() - rest.len();
    assert(0 <= off <= 1);
    assert forall|i: int| 0 <= i < k.skip(n).len() implies plain_key(#[trigger] k.skip(n)[i]) by {
        assert(k.skip(n)[i] == rest[n + i - off]);
    }
}

/// What lies below a prefix has just the components behind those of the prefix,
/// so that the two together are the whole path again.
pub proof fn paths_below_complete_the_prefix(path: Seq<char>, prefix: Seq<char>, r: Seq<char>)
    requires
        prefix.len() > 0,
        below_prefix(path, prefix) == Some(r),
    ensures
        path_key(path) == path_key(prefix) + path_key(r),
{
    let p = path_key(path);
    let k = path_key(prefix);
    lemma_prefix_has_a_key(prefix);
    lemma_tail_is_plain(path, k.len() as int);
    let tail = p.skip(k.len() as int);
    assert(p =~= k + tail);
    reveal_strlit("/");
    if tail.len() > 0 {
        lemma_joined_keys(tail);
        lemma_keys_of_texts(tail, 0);
        assert(tail.skip(0) =~= tail);
        assert(!begins(r, "/"@)) by {
            if begins(r, "/"@) {
                assert(r.subrange(0, 1)[0] == '/');
            }
        }
    } else {
        assert(tail.map_values(|t: Seq<char>| key_text(t)) =~= Seq::empty());
        assert(r =~= Seq::empty());
        lemma_one_piece(r);
        assert(keys_from(seq![r], 1) =~= Seq::empty());
        assert(keys_from(seq![r], 0) =~= Seq::empty());
        assert(path_key(r) =~= tail);
    }
}

/// A path that is not empty has a component.
proof fn lemma_prefix_has_a_key(path: Seq<char>)
    requires
        path.len() > 0,
    ensures
        path_key(path).len() > 0,
{
    reveal_strlit("/");
    let p = pieces(path, only('/'));
    crate::text::lemma_pieces_nonempty(path, only('/'), 0);
    if path[0] == '/' {
        assert(path.subrange(0, 1) =~= "/"@);
        assert(begins(path, "/"@));
    } else {
        crate::text::lemma_first_at(path, only('/'), 0);
        assert(p[0].len() > 0);
    }
}

/// A relative path goes below the directory, with one separator between the
/// two; an absolute one stands alone.
pub proof fn paths_are_joined_by_one_separator(dir: Seq<char>, rel: Seq<char>)
    ensures
        rel.len() > 0 && rel[0] == '/' ==> path_joined(dir, rel) == rel,
        !(rel.len() > 0 && rel[0] == '/') && dir.len() > 0 && dir.last() != '/' ==> path_joined(
            dir,
            rel,
        ) == dir + seq!['/'] + rel,
        !(rel.len() > 0 && rel[0] == '/') && dir.len() > 0 && dir.last() == '/' ==> path_joined(
            dir,
            rel,
        ) == dir + rel,
        dir.len() == 0 ==> path_joined(dir, rel) == rel,
{
    reveal_strlit("/");
    assert("/"@ =~= seq!['/']);
    if rel.len() > 0 && rel[0] == '/' {
        assert(rel.subrange(0, 1) =~= "/"@);
        assert(begins(rel, "/"@));
    }
    if begins(rel, "/"@) {
        assert(rel.subrange(0, 1)[0] == '/');
    }
    if dir.len() == 0 {
        assert(dir + rel =~= rel);
    }
}

} // verus!
