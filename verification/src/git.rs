//! What git's answers say about changed files.
use crate::order::{lemma_filter_member, strictly_in_order};
use crate::paths::{
    below_prefix, extension_spec, has_extension, join_path, ordered_paths, path_joined, path_key,
    path_lt, path_order, path_set, path_set_is_exact, same_path, unordered_paths_are_the_same,
    worktree_to_root_relative,
};
use crate::text::{
    keep_nonempty, lemma_filter_step, lines, lines_of, nonempty, replace_char, replaced, texts,
    trim, trimmed,
};
use vstd::prelude::*;
use vstd::string::*;

verus! {

/// The file names in an answer of `git diff --name-only` or `git ls-files`:
/// its lines that are not empty.
pub open spec fn listed(stdout: Seq<char>) -> Seq<Seq<char>> {
    nonempty(lines_of(stdout))
}

/// The file names in an answer of `git diff --name-only` or `git ls-files`.
pub fn git_name_only(stdout: &str) -> (r: Vec<String>)
    ensures
        texts(r@) == listed(stdout@),
{
    keep_nonempty(&lines(stdout))
}

/// The paths that lie below `prefix`, relative to it, in order.
pub open spec fn relative_paths(all: Seq<Seq<char>>, prefix: Seq<char>) -> Seq<Seq<char>>
    decreases all.len(),
{
    if all.len() == 0 {
        Seq::empty()
    } else {
        let rest = relative_paths(all.drop_last(), prefix);
        match below_prefix(all.last(), prefix) {
            Some(p) => rest.push(p),
            None => rest,
        }
    }
}

fn below(all: &Vec<String>, prefix: &str) -> (r: Vec<String>)
    ensures
        texts(r@) == relative_paths(texts(all@), prefix@),
{
    let ghost s = texts(all@);
    let mut out: Vec<String> = Vec::new();
    let mut i: usize = 0;
    proof {
        assert(texts(out@) =~= Seq::empty());
    }
    while i < all.len()
        invariant
            i <= all@.len(),
            s == texts(all@),
            texts(out@) == relative_paths(s.take(i as int), prefix@),
        decreases all@.len() - i,
    {
        proof {
            assert(s.take(i + 1).drop_last() =~= s.take(i as int));
            assert(s.take(i + 1).last() == all@[i as int]@);
        }
        match worktree_to_root_relative(all[i].as_str(), prefix) {
            Some(p) => {
                proof {
                    assert(texts(out@.push(p)) =~= texts(out@).push(p@));
                }
                out.push(p);
            },
            None => {},
        }
        i = i + 1;
    }
    proof {
        assert(s.take(all@.len() as int) =~= s);
    }
    out
}

/// Whether a path ends in `.rs`.
pub open spec fn is_rust_path() -> spec_fn(Seq<char>) -> bool {
    |p: Seq<char>| extension_spec(p) == Some("rs"@)
}

/// The changed Rust files: what the four answers list below the prefix, in
/// path order, each path once, kept when it ends in `.rs`.
pub open spec fn changed_files(
    prefix: Seq<char>,
    committed: Seq<char>,
    staged: Seq<char>,
    unstaged: Seq<char>,
    untracked: Seq<char>,
) -> Seq<Seq<char>> {
    path_set(
        relative_paths(
            listed(committed) + listed(staged) + listed(unstaged) + listed(untracked),
            trimmed(prefix),
        ),
    ).filter(is_rust_path())
}

/// The changed Rust files below the analysis root.
///
/// The arguments are what git printed: for the prefix of the root in the work
/// tree, for changes since a revision, for staged changes, for unstaged
/// changes and for untracked files.
pub fn changed_rust_files(
    prefix: &str,
    committed: &str,
    staged: &str,
    unstaged: &str,
    untracked: &str,
) -> (r: Vec<String>)
    ensures
        texts(r@) == changed_files(prefix@, committed@, staged@, unstaged@, untracked@),
{
    let root = trim(prefix);
    let mut all = git_name_only(committed);
    let mut second = git_name_only(staged);
    let mut third = git_name_only(unstaged);
    let mut fourth = git_name_only(untracked);
    let ghost parts = (all@, second@, third@, fourth@);
    all.append(&mut second);
    all.append(&mut third);
    all.append(&mut fourth);
    proof {
        assert(texts(all@) =~= texts(parts.0) + texts(parts.1) + texts(parts.2) + texts(parts.3));
    }
    let files = ordered_paths(&below(&all, root.as_str()));
    let ghost s = texts(files@);
    let ghost p = is_rust_path();
    let mut out: Vec<String> = Vec::new();
    let mut i: usize = 0;
    proof {
        assert(s.take(0).filter(p) =~= Seq::empty()) by {
            reveal(Seq::filter);
        }
        assert(texts(out@) =~= Seq::empty());
    }
    while i < files.len()
        invariant
            i <= files@.len(),
            s == texts(files@),
            p == is_rust_path(),
            texts(out@) == s.take(i as int).filter(p),
        decreases files@.len() - i,
    {
        proof {
            lemma_filter_step(s, p, i as int);
            assert(s[i as int] == files@[i as int]@);
        }
        if has_extension(files[i].as_str(), "rs") {
            proof {
                assert(texts(out@.push(files@[i as int])) =~= texts(out@).push(
                    files@[i as int]@,
                ));
            }
            out.push(files[i].clone());
        }
        i = i + 1;
    }
    proof {
        assert(s.take(files@.len() as int) =~= s);
    }
    out
}

/// `rel` in the work tree: below the prefix of the analysis root, with
/// forward slashes.
pub fn tree_path(prefix: &str, rel: &str) -> (r: String)
    ensures
        r@ == replaced(path_joined(trimmed(prefix@), rel@), '\\', '/'),
{
    replace_char(join_path(trim(prefix).as_str(), rel).as_str(), '\\', '/')
}

/// The object that `git show` prints for `rel` at a revision.
pub fn show_spec(rev: &str, prefix: &str, rel: &str) -> (r: String)
    ensures
        r@ == rev@ + ":"@ + replaced(path_joined(trimmed(prefix@), rel@), '\\', '/'),
{
    let mut s = rev.to_owned();
    s.append(":");
    s.append(tree_path(prefix, rel).as_str());
    s
}

/// The changed files are in path order without repetition, and all end in
/// `.rs`; every listed path below the prefix that does is among them, in some
/// spelling.
pub proof fn changed_files_are_listed_once(
    prefix: Seq<char>,
    committed: Seq<char>,
    staged: Seq<char>,
    unstaged: Seq<char>,
    untracked: Seq<char>,
)
    ensures
        ({
            let files = changed_files(prefix, committed, staged, unstaged, untracked);
            let given = relative_paths(
                listed(committed) + listed(staged) + listed(unstaged) + listed(untracked),
                trimmed(prefix),
            );
            &&& strictly_in_order(files, path_order())
            &&& forall|p: Seq<char>| #[trigger]
                files.contains(p) ==> given.contains(p) && is_rust_path()(p)
            &&& forall|p: Seq<char>| #[trigger]
                given.contains(p) && is_rust_path()(p) ==> exists|i: int|
                    0 <= i < files.len() && same_path(#[trigger] files[i], p)
        }),
{
    let given = relative_paths(
        listed(committed) + listed(staged) + listed(unstaged) + listed(untracked),
        trimmed(prefix),
    );
    let all = path_set(given);
    let files = changed_files(prefix, committed, staged, unstaged, untracked);
    path_set_is_exact(given);
    lemma_filter_keeps_order(all, is_rust_path());
    assert forall|p: Seq<char>| #[trigger] files.contains(p) implies given.contains(p)
        && is_rust_path()(p) by {
        lemma_filter_member(all, is_rust_path(), p);
    }
    assert forall|p: Seq<char>| #[trigger]
        given.contains(p) && is_rust_path()(p) implies exists|i: int|
        0 <= i < files.len() && same_path(#[trigger] files[i], p) by {
        let i = choose|i: int|
            0 <= i < all.len() && !path_lt(#[trigger] all[i], p) && !path_lt(p, all[i]);
        unordered_paths_are_the_same(all[i], p);
        assert(path_key(all[i]) == path_key(p));
        assert(is_rust_path()(all[i]));
        lemma_filter_member(all, is_rust_path(), all[i]);
        assert(all.contains(all[i]));
        let k = files.index_of(all[i]);
        assert(same_path(files[k], p));
    }
}

proof fn lemma_filter_keeps_order(s: Seq<Seq<char>>, p: spec_fn(Seq<char>) -> bool)
    requires
        strictly_in_order(s, path_order()),
    ensures
        strictly_in_order(s.filter(p), path_order()),
    decreases s.len(),
{
    reveal(Seq::filter);
    let lt = path_order();
    if s.len() > 0 {
        let head = s.drop_last();
        assert(strictly_in_order(head, lt)) by {
            assert forall|i: int, j: int| #![trigger head[i], head[j]] 0 <= i < j < head.len() implies lt(
                head[i],
                head[j],
            ) by {
                assert(lt(s[i], s[j]));
            }
        }
        lemma_filter_keeps_order(head, p);
        let kept = head.filter(p);
        let r = s.filter(p);
        if p(s.last()) {
            assert forall|i: int, j: int| #![trigger r[i], r[j]] 0 <= i < j < r.len() implies lt(
                r[i],
                r[j],
            ) by {
                if j < kept.len() {
                    assert(lt(kept[i], kept[j]));
                } else {
                    lemma_filter_member(head, p, kept[i]);
                    assert(kept.contains(kept[i]));
                    let k = head.index_of(kept[i]);
                    assert(lt(s[k], s[s.len() - 1]));
                }
            }
        }
    }
}

/// The paths below a prefix come path by path, in order; each listed path gives
/// one at most.
pub proof fn paths_below_a_prefix_keep_their_order(
    a: Seq<Seq<char>>,
    b: Seq<Seq<char>>,
    path: Seq<char>,
    prefix: Seq<char>,
)
    ensures
        relative_paths(a + b, prefix) == relative_paths(a, prefix) + relative_paths(b, prefix),
        below_prefix(path, prefix) matches Some(p) ==> relative_paths(seq![path], prefix)
            == seq![p],
        below_prefix(path, prefix) is None ==> relative_paths(seq![path], prefix).len() == 0,
        relative_paths(Seq::empty(), prefix).len() == 0,
    decreases b.len(),
{
    assert(seq![path].drop_last() =~= Seq::empty());
    assert(seq![path].last() == path);
    assert(relative_paths(seq![path].drop_last(), prefix) =~= Seq::empty());
    if let Some(p) = below_prefix(path, prefix) {
        assert(relative_paths(seq![path], prefix) =~= seq![p]);
    }
    if b.len() > 0 {
        assert((a + b).drop_last() =~= a + b.drop_last());
        paths_below_a_prefix_keep_their_order(a, b.drop_last(), path, prefix);
        assert(relative_paths(a + b, prefix) =~= relative_paths(a, prefix) + relative_paths(
            b,
            prefix,
        ));
    } else {
        assert(a + b =~= a);
        assert(relative_paths(a, prefix) + relative_paths(b, prefix) =~= relative_paths(a, prefix));
    }
}

/// An answer lists just its lines that are not empty.
pub proof fn answers_list_their_lines(stdout: Seq<char>, line: Seq<char>)
    ensures
        listed(stdout).contains(line) <==> lines_of(stdout).contains(line) && line.len() > 0,
{
    lemma_filter_member(lines_of(stdout), |t: Seq<char>| t.len() > 0, line);
}

/// A path is changed just where one of the four answers lists it, it lies below
/// the prefix and it ends in `.rs`, up to its spelling.
pub proof fn every_answer_counts(
    prefix: Seq<char>,
    committed: Seq<char>,
    staged: Seq<char>,
    unstaged: Seq<char>,
    untracked: Seq<char>,
    line: Seq<char>,
    p: Seq<char>,
)
    requires
        listed(committed).contains(line) || listed(staged).contains(line) || listed(
            unstaged,
        ).contains(line) || listed(untracked).contains(line),
        below_prefix(line, trimmed(prefix)) == Some(p),
        extension_spec(p) == Some("rs"@),
    ensures
        ({
            let files = changed_files(prefix, committed, staged, unstaged, untracked);
            exists|i: int| 0 <= i < files.len() && same_path(#[trigger] files[i], p)
        }),
{
    let all = listed(committed) + listed(staged) + listed(unstaged) + listed(untracked);
    crate::scan::lemma_contains_add(listed(committed), listed(staged), line);
    crate::scan::lemma_contains_add(listed(committed) + listed(staged), listed(unstaged), line);
    crate::scan::lemma_contains_add(
        listed(committed) + listed(staged) + listed(unstaged),
        listed(untracked),
        line,
    );
    lemma_relative_member(all, trimmed(prefix), line, p);
    changed_files_are_listed_once(prefix, committed, staged, unstaged, untracked);
    let given = relative_paths(all, trimmed(prefix));
    assert(given.contains(p) && is_rust_path()(p));
}

proof fn lemma_relative_member(
    all: Seq<Seq<char>>,
    prefix: Seq<char>,
    line: Seq<char>,
    p: Seq<char>,
)
    requires
        all.contains(line),
        below_prefix(line, prefix) == Some(p),
    ensures
        relative_paths(all, prefix).contains(p),
{
    let k = all.index_of(line);
    let a = all.take(k);
    let b = all.skip(k + 1);
    assert(all =~= a + seq![line] + b);
    paths_below_a_prefix_keep_their_order(a, seq![line], line, prefix);
    paths_below_a_prefix_keep_their_order(a + seq![line], b, line, prefix);
    let r = relative_paths(all, prefix);
    assert(r[relative_paths(a, prefix).len() as int] == p);
}

/// Every changed file is one that an answer lists below the prefix.
pub proof fn changed_files_come_from_an_answer(
    prefix: Seq<char>,
    committed: Seq<char>,
    staged: Seq<char>,
    unstaged: Seq<char>,
    untracked: Seq<char>,
    p: Seq<char>,
)
    requires
        changed_files(prefix, committed, staged, unstaged, untracked).contains(p),
    ensures
        extension_spec(p) == Some("rs"@),
        exists|line: Seq<char>|
            (listed(committed).contains(line) || listed(staged).contains(line) || listed(
                unstaged,
            ).contains(line) || listed(untracked).contains(line)) && #[trigger] below_prefix(
                line,
                trimmed(prefix),
            ) == Some(p),
{
    let all = listed(committed) + listed(staged) + listed(unstaged) + listed(untracked);
    changed_files_are_listed_once(prefix, committed, staged, unstaged, untracked);
    let given = relative_paths(all, trimmed(prefix));
    assert(given.contains(p) && is_rust_path()(p));
    lemma_relative_origin(all, trimmed(prefix), p);
    let line = choose|line: Seq<char>|
        all.contains(line) && #[trigger] below_prefix(line, trimmed(prefix)) == Some(p);
    crate::scan::lemma_contains_add(listed(committed), listed(staged), line);
    crate::scan::lemma_contains_add(listed(committed) + listed(staged), listed(unstaged), line);
    crate::scan::lemma_contains_add(
        listed(committed) + listed(staged) + listed(unstaged),
        listed(untracked),
        line,
    );
    assert(below_prefix(line, trimmed(prefix)) == Some(p));
}

proof fn lemma_relative_origin(all: Seq<Seq<char>>, prefix: Seq<char>, p: Seq<char>)
    requires
        relative_paths(all, prefix).contains(p),
    ensures
        exists|line: Seq<char>| all.contains(line) && #[trigger] below_prefix(line, prefix) == Some(p),
    decreases all.len(),
{
    let r = relative_paths(all, prefix);
    let k = r.index_of(p);
    let head = all.drop_last();
    let rest = relative_paths(head, prefix);
    crate::scan::lemma_last_or_before(all);
    if k < rest.len() {
        assert(rest[k] == p);
        assert(rest.contains(p));
        lemma_relative_origin(head, prefix, p);
        let line = choose|line: Seq<char>|
            head.contains(line) && #[trigger] below_prefix(line, prefix) == Some(p);
        assert(all.contains(line));
    } else {
        assert(below_prefix(all.last(), prefix) == Some(p));
        assert(all.contains(all.last()));
    }
}

} // verus!
