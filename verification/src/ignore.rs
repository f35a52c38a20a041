//! Path filtering by an `.impactignore` file.
//!
//! One pattern per line; blank lines and lines that start with `#` are
//! skipped. A pattern without `*` matches any path that holds it. A pattern
//! with `*` matches any path component, or the whole path.
use crate::text::{
    blank, chars_of, has_char, has_text, lemma_trimmed_padded, lines, lines_of, occurs, only,
    pieces, replace_char, replaced, split_on, texts, trim, trimmed, white_space, without_return,
};
use vstd::prelude::*;
use vstd::string::*;

verus! {

/// Whether `pattern` matches all of `input`, where each `*` matches any run of
/// characters, the empty run too.
pub open spec fn glob(pattern: Seq<char>, input: Seq<char>) -> bool
    decreases pattern.len(), input.len(),
{
    if pattern.len() == 0 {
        input.len() == 0
    } else if pattern[0] == '*' {
        glob(pattern.skip(1), input) || (input.len() > 0 && glob(pattern, input.skip(1)))
    } else {
        input.len() > 0 && input[0] == pattern[0] && glob(pattern.skip(1), input.skip(1))
    }
}

/// Whether `p[pi..]` matches `s[si..]`.
fn glob_inner(p: &Vec<char>, s: &Vec<char>, pi: usize, si: usize) -> (r: bool)
    requires
        pi <= p.len(),
        si <= s@.len(),
    ensures
        r == glob(p@.skip(pi as int), s@.skip(si as int)),
    decreases p@.len() - pi,
{
    let ghost rest = p@.skip(pi as int);
    let ghost left = s@.skip(si as int);
    if pi == p.len() {
        return si == s.len();
    }
    proof {
        assert(rest.skip(1) =~= p@.skip(pi + 1));
    }
    if p[pi] == '*' {
        let mut k: usize = si;
        while k < s.len()
            invariant
                si <= k <= s@.len(),
                pi < p.len(),
                rest == p@.skip(pi as int),
                rest.skip(1) == p@.skip(pi + 1),
                left == s@.skip(si as int),
                p@[pi as int] == '*',
                glob(rest, left) == glob(rest, s@.skip(k as int)),
            decreases s@.len() - k,
        {
            if glob_inner(p, s, pi + 1, k) {
                return true;
            }
            proof {
                assert(s@.skip(k as int).skip(1) =~= s@.skip(k + 1));
            }
            k = k + 1;
        }
        glob_inner(p, s, pi + 1, k)
    } else if si < s.len() && p[pi] == s[si] {
        proof {
            assert(left.skip(1) =~= s@.skip(si + 1));
        }
        glob_inner(p, s, pi + 1, si + 1)
    } else {
        false
    }
}

/// Whether `pattern` matches all of `input`, with `*` for any run of
/// characters.
pub fn glob_matches(pattern: &str, input: &str) -> (r: bool)
    ensures
        r == glob(pattern@, input@),
{
    let p = chars_of(pattern);
    let s = chars_of(input);
    proof {
        assert(p@.skip(0) =~= p@);
        assert(s@.skip(0) =~= s@);
    }
    glob_inner(&p, &s, 0, 0)
}

/// A pattern without `*` matches itself and nothing else.
pub proof fn literal_glob_is_equality(pattern: Seq<char>, input: Seq<char>)
    requires
        !pattern.contains('*'),
    ensures
        glob(pattern, input) <==> pattern == input,
    decreases pattern.len(),
{
    if pattern.len() == 0 {
        assert(pattern == input <==> input.len() == 0) by {
            if input.len() == 0 {
                assert(pattern =~= input);
            }
        }
    } else {
        assert(pattern.contains(pattern[0]));
        let rest = pattern.skip(1);
        assert(!rest.contains('*')) by {
            if rest.contains('*') {
                let k = rest.index_of('*');
                assert(pattern[k + 1] == '*');
            }
        }
        if input.len() > 0 {
            literal_glob_is_equality(rest, input.skip(1));
            if rest == input.skip(1) && pattern[0] == input[0] {
                assert(pattern =~= seq![pattern[0]] + rest);
                assert(input =~= seq![input[0]] + input.skip(1));
            }
        }
    }
}

/// A `*` skips any run of characters.
proof fn lemma_star_skips(q: Seq<char>, b: Seq<char>, c: Seq<char>)
    requires
        glob(q, c),
    ensures
        glob(seq!['*'] + q, b + c),
    decreases b.len(),
{
    let pattern = seq!['*'] + q;
    assert(pattern.skip(1) =~= q);
    if b.len() == 0 {
        assert(b + c =~= c);
    } else {
        lemma_star_skips(q, b.skip(1), c);
        assert((b + c).skip(1) =~= b.skip(1) + c);
    }
}

/// A `*` between two patterns matches whatever stands between their matches.
pub proof fn star_matches_any_run(
    p: Seq<char>,
    q: Seq<char>,
    a: Seq<char>,
    b: Seq<char>,
    c: Seq<char>,
)
    requires
        glob(p, a),
        glob(q, c),
    ensures
        glob(p + seq!['*'] + q, a + b + c),
    decreases p.len(), a.len(),
{
    let pattern = p + seq!['*'] + q;
    let input = a + b + c;
    if p.len() == 0 {
        lemma_star_skips(q, b, c);
        assert(pattern =~= seq!['*'] + q);
        assert(input =~= b + c);
    } else {
        assert(pattern.skip(1) =~= p.skip(1) + seq!['*'] + q);
        if p[0] == '*' {
            if glob(p.skip(1), a) {
                star_matches_any_run(p.skip(1), q, a, b, c);
            } else {
                star_matches_any_run(p, q, a.skip(1), b, c);
                assert(input.skip(1) =~= a.skip(1) + b + c);
            }
        } else {
            star_matches_any_run(p.skip(1), q, a.skip(1), b, c);
            assert(input.skip(1) =~= a.skip(1) + b + c);
        }
    }
}

/// One line of an ignore file.
#[derive(Debug, PartialEq, Eq)]
pub enum Pattern {
    /// Matches a path that holds this text.
    Literal(String),
    /// Matches a path component, or a whole path.
    Glob(String),
}

/// A pattern as plain data.
pub enum PatternView {
    Literal(Seq<char>),
    Glob(Seq<char>),
}

impl View for Pattern {
    type V = PatternView;

    open spec fn view(&self) -> PatternView {
        match self {
            Pattern::Literal(t) => PatternView::Literal(t@),
            Pattern::Glob(t) => PatternView::Glob(t@),
        }
    }
}

/// Whether a pattern matches a path with forward slashes.
pub open spec fn pattern_matches(p: PatternView, path: Seq<char>) -> bool {
    match p {
        PatternView::Literal(t) => occurs(path, t),
        PatternView::Glob(t) => glob(t, path) || exists|i: int|
            0 <= i < pieces(path, only('/')).len() && glob(
                t,
                #[trigger] pieces(path, only('/'))[i],
            ),
    }
}

/// Whether a line of an ignore file is a pattern.
pub open spec fn is_pattern_line(l: Seq<char>) -> bool {
    l.len() > 0 && l[0] != '#'
}

/// The pattern that a line stands for.
pub open spec fn line_pattern(l: Seq<char>) -> PatternView {
    if l.contains('*') {
        PatternView::Glob(l)
    } else {
        PatternView::Literal(l)
    }
}

/// The patterns of an ignore file.
pub open spec fn file_patterns(src: Seq<char>) -> Seq<PatternView> {
    lines_of(src).map_values(|l: Seq<char>| trimmed(l)).filter(
        |l: Seq<char>| is_pattern_line(l),
    ).map_values(|l: Seq<char>| line_pattern(l))
}

/// Path matcher built from an `.impactignore` file.
#[derive(Debug, PartialEq, Eq)]
pub struct IgnoreSet {
    pub patterns: Vec<Pattern>,
}

impl View for IgnoreSet {
    type V = Seq<PatternView>;

    open spec fn view(&self) -> Seq<PatternView> {
        self.patterns@.map_values(|p: Pattern| p@)
    }
}

/// Whether some pattern matches `path`. Back slashes count as forward slashes.
pub open spec fn ignores(patterns: Seq<PatternView>, path: Seq<char>) -> bool {
    exists|i: int|
        0 <= i < patterns.len() && pattern_matches(
            #[trigger] patterns[i],
            replaced(path, '\\', '/'),
        )
}

impl IgnoreSet {
    /// The matcher that matches nothing.
    pub fn empty() -> (r: IgnoreSet)
        ensures
            r@.len() == 0,
    {
        IgnoreSet { patterns: Vec::new() }
    }

    /// The matcher for the contents of an `.impactignore` file.
    pub fn parse(src: &str) -> (r: IgnoreSet)
        ensures
            r@ == file_patterns(src@),
    {
        let all = lines(src);
        let ghost t = lines_of(src@).map_values(|l: Seq<char>| trimmed(l));
        let ghost p = |l: Seq<char>| is_pattern_line(l);
        let ghost g = |l: Seq<char>| line_pattern(l);
        let mut patterns: Vec<Pattern> = Vec::new();
        let mut i: usize = 0;
        proof {
            assert(t.take(0).filter(p) =~= Seq::empty()) by {
                reveal(Seq::filter);
            }
            assert(patterns@.map_values(|p: Pattern| p@) =~= t.take(0).filter(p).map_values(g));
            assert(texts(all@).len() == all@.len());
        }
        while i < all.len()
            invariant
                i <= all@.len(),
                all@.len() == t.len(),
                texts(all@) == lines_of(src@),
                t == lines_of(src@).map_values(|l: Seq<char>| trimmed(l)),
                p == (|l: Seq<char>| is_pattern_line(l)),
                g == (|l: Seq<char>| line_pattern(l)),
                patterns@.map_values(|p: Pattern| p@) == t.take(i as int).filter(p).map_values(g),
            decreases all@.len() - i,
        {
            proof {
                crate::text::lemma_filter_step(t, p, i as int);
                assert(texts(all@)[i as int] == all@[i as int]@);
                assert(t[i as int] == trimmed(all@[i as int]@));
            }
            let line = trim(all[i].as_str());
            let v = chars_of(line.as_str());
            if v.len() > 0 && v[0] != '#' {
                let pattern = if has_char(line.as_str(), '*') {
                    Pattern::Glob(line)
                } else {
                    Pattern::Literal(line)
                };
                proof {
                    let before = t.take(i as int).filter(p);
                    assert(patterns@.push(pattern).map_values(|p: Pattern| p@)
                        =~= patterns@.map_values(|p: Pattern| p@).push(pattern@));
                    assert(before.push(t[i as int]).map_values(g) =~= before.map_values(g).push(
                        line_pattern(t[i as int]),
                    ));
                }
                patterns.push(pattern);
            }
            i = i + 1;
        }
        proof {
            assert(t.take(all@.len() as int) =~= t);
        }
        IgnoreSet { patterns }
    }

    /// The matcher of an `.impactignore` file; it matches nothing where there
    /// is none.
    pub fn load(contents: Option<&str>) -> (r: IgnoreSet)
        ensures
            r@ == (match contents {
                Some(src) => file_patterns(src@),
                None => Seq::empty(),
            }),
    {
        match contents {
            Some(src) => IgnoreSet::parse(src),
            None => IgnoreSet::empty(),
        }
    }

    /// Whether some pattern matches `path`.
    pub fn is_ignored(&self, path: &str) -> (r: bool)
        ensures
            r == ignores(self@, path@),
    {
        let normal = replace_char(path, '\\', '/');
        let parts = split_on(normal.as_str(), '/');
        let ghost ps = pieces(normal@, only('/'));
        let mut i: usize = 0;
        while i < self.patterns.len()
            invariant
                i <= self.patterns@.len(),
                normal@ == replaced(path@, '\\', '/'),
                texts(parts@) == ps,
                ps == pieces(normal@, only('/')),
                forall|j: int| 0 <= j < i ==> !pattern_matches(#[trigger] self@[j], normal@),
            decreases self.patterns@.len() - i,
        {
            proof {
                assert(self@[i as int] == self.patterns@[i as int]@);
            }
            let hit = match &self.patterns[i] {
                Pattern::Literal(t) => has_text(normal.as_str(), t.as_str()),
                Pattern::Glob(t) => {
                    let mut found = glob_matches(t.as_str(), normal.as_str());
                    let mut k: usize = 0;
                    while k < parts.len()
                        invariant
                            k <= parts@.len(),
                            texts(parts@) == ps,
                            ps == pieces(normal@, only('/')),
                            found == (glob(t@, normal@) || exists|j: int|
                                0 <= j < k && glob(t@, #[trigger] ps[j])),
                        decreases parts@.len() - k,
                    {
                        proof {
                            assert(ps[k as int] == parts@[k as int]@);
                        }
                        if glob_matches(t.as_str(), parts[k].as_str()) {
                            proof {
                                assert(glob(t@, ps[k as int]));
                            }
                            found = true;
                        }
                        k = k + 1;
                    }
                    proof {
                        assert(ps.len() == parts@.len());
                    }
                    found
                },
            };
            if hit {
                proof {
                    assert(pattern_matches(self@[i as int], normal@));
                }
                return true;
            }
            i = i + 1;
        }
        false
    }

    /// Whether there is no pattern.
    pub fn is_empty(&self) -> (r: bool)
        ensures
            r == (self@.len() == 0),
    {
        self.patterns.len() == 0
    }

    /// Number of patterns.
    pub fn len(&self) -> (r: usize)
        ensures
            r == self@.len(),
    {
        self.patterns.len()
    }
}

/// The empty matcher matches no path.
pub proof fn empty_set_ignores_nothing(path: Seq<char>)
    ensures
        !ignores(Seq::empty(), path),
{
}

/// Back slashes and forward slashes mean the same to every matcher.
pub proof fn slashes_are_alike(patterns: Seq<PatternView>, path: Seq<char>)
    ensures
        ignores(patterns, path) == ignores(patterns, replaced(path, '\\', '/')),
{
    assert(replaced(replaced(path, '\\', '/'), '\\', '/') =~= replaced(path, '\\', '/'));
}

/// The patterns among lines.
pub open spec fn line_patterns(lines: Seq<Seq<char>>) -> Seq<PatternView> {
    lines.map_values(|l: Seq<char>| trimmed(l)).filter(
        |l: Seq<char>| is_pattern_line(l),
    ).map_values(|l: Seq<char>| line_pattern(l))
}

proof fn lemma_line_patterns_add(a: Seq<Seq<char>>, b: Seq<Seq<char>>)
    ensures
        line_patterns(a + b) == line_patterns(a) + line_patterns(b),
{
    let t = |l: Seq<char>| trimmed(l);
    let p = |l: Seq<char>| is_pattern_line(l);
    let g = |l: Seq<char>| line_pattern(l);
    let x = a.map_values(t);
    let y = b.map_values(t);
    assert((a + b).map_values(t) =~= x + y);
    Seq::filter_distributes_over_add(x, y, p);
    assert((x.filter(p) + y.filter(p)).map_values(g) =~= x.filter(p).map_values(g) + y.filter(
        p,
    ).map_values(g));
}

/// One line is one pattern or none.
proof fn lemma_one_line(l: Seq<char>)
    ensures
        line_patterns(seq![l]) == (if is_pattern_line(trimmed(l)) {
            seq![line_pattern(trimmed(l))]
        } else {
            Seq::empty()
        }),
{
    let t = |l: Seq<char>| trimmed(l);
    let p = |l: Seq<char>| is_pattern_line(l);
    let g = |l: Seq<char>| line_pattern(l);
    let x = seq![l].map_values(t);
    assert(x =~= seq![trimmed(l)]);
    assert(x.take(0).filter(p) =~= Seq::empty()) by {
        reveal(Seq::filter);
    }
    crate::text::lemma_filter_step(x, p, 0);
    assert(x.take(1) =~= x);
    if p(trimmed(l)) {
        assert(x.filter(p).map_values(g) =~= seq![line_pattern(trimmed(l))]);
    } else {
        assert(x.filter(p).map_values(g) =~= Seq::empty());
    }
}

/// A carriage return at the end of a line is white space.
proof fn lemma_return_is_trimmed(l: Seq<char>)
    ensures
        trimmed(without_return(l)) == trimmed(l),
{
    if l.len() > 0 && l.last() == '\r' {
        assert(l =~= Seq::empty() + l.drop_last() + seq!['\r']);
        lemma_trimmed_padded(Seq::empty(), l.drop_last(), seq!['\r'], blank());
    }
}

proof fn lemma_returns_are_trimmed(s: Seq<Seq<char>>)
    ensures
        line_patterns(s.map_values(|l: Seq<char>| without_return(l))) == line_patterns(s),
{
    let r = s.map_values(|l: Seq<char>| without_return(l));
    let t = |l: Seq<char>| trimmed(l);
    assert forall|i: int| 0 <= i < s.len() implies #[trigger] r.map_values(t)[i] == s.map_values(
        t,
    )[i] by {
        lemma_return_is_trimmed(s[i]);
    }
    assert(r.map_values(t) =~= s.map_values(t));
}

/// The patterns of a file are those of its pieces between line feeds.
proof fn lemma_patterns_of_pieces(src: Seq<char>)
    ensures
        file_patterns(src) == line_patterns(pieces(src, only('\n'))),
{
    let all = pieces(src, only('\n'));
    crate::text::lemma_pieces_nonempty(src, only('\n'), 0);
    let head = all.drop_last();
    let last = all.last();
    let closed = head.map_values(|l: Seq<char>| without_return(l));
    assert(all =~= head + seq![last]);
    lemma_line_patterns_add(head, seq![last]);
    lemma_returns_are_trimmed(head);
    lemma_one_line(last);
    if last.len() == 0 {
        assert(trimmed(last).len() == 0);
        assert(line_patterns(head) + Seq::<PatternView>::empty() =~= line_patterns(head));
    } else {
        assert(closed.push(last) =~= closed + seq![last]);
        lemma_line_patterns_add(closed, seq![last]);
    }
}

/// Two ignore files one behind the other have the patterns of both, and ignore
/// what either ignores. So more patterns never take a path back, and their order
/// does not matter.
pub proof fn ignore_files_add_up(a: Seq<char>, b: Seq<char>, path: Seq<char>)
    ensures
        file_patterns(a + seq!['\n'] + b) == file_patterns(a) + file_patterns(b),
        ignores(file_patterns(a + seq!['\n'] + b), path) <==> ignores(file_patterns(a), path)
            || ignores(file_patterns(b), path),
{
    let nl = only('\n');
    crate::text::lemma_pieces_join(a, '\n', b, nl, 0);
    lemma_line_patterns_add(pieces(a, nl), pieces(b, nl));
    lemma_patterns_of_pieces(a);
    lemma_patterns_of_pieces(b);
    lemma_patterns_of_pieces(a + seq!['\n'] + b);
    let x = file_patterns(a);
    let y = file_patterns(b);
    let q = replaced(path, '\\', '/');
    if ignores(x, path) {
        let i = choose|i: int| 0 <= i < x.len() && pattern_matches(#[trigger] x[i], q);
        assert(pattern_matches((x + y)[i], q));
    }
    if ignores(y, path) {
        let i = choose|i: int| 0 <= i < y.len() && pattern_matches(#[trigger] y[i], q);
        assert((x + y)[x.len() + i] == y[i]);
        assert(pattern_matches((x + y)[x.len() + i], q));
    }
    if ignores(x + y, path) {
        let i = choose|i: int| 0 <= i < (x + y).len() && pattern_matches(#[trigger] (x + y)[i], q);
        if i < x.len() {
            assert(pattern_matches(x[i], q));
        } else {
            assert(pattern_matches(y[i - x.len()], q));
        }
    }
}

/// A file of one line has the pattern of that line, without the white space
/// round it, or none where that is empty or a comment.
pub proof fn one_line_is_one_pattern(line: Seq<char>)
    requires
        !line.contains('\n'),
    ensures
        file_patterns(line) == (if is_pattern_line(trimmed(line)) {
            seq![line_pattern(trimmed(line))]
        } else {
            Seq::empty()
        }),
{
    lemma_patterns_of_pieces(line);
    assert forall|j: int| 0 <= j < line.len() implies !only('\n')(#[trigger] line[j]) by {
        if line[j] == '\n' {
            assert(line.contains(line[j]));
        }
    }
    crate::text::lemma_first_at_is(line, only('\n'), 0, line.len() as int);
    assert(line.subrange(0, line.len() as int) =~= line);
    assert(pieces(line, only('\n')) =~= seq![line]);
    lemma_one_line(line);
}

/// A comment or a blank line can be put between two parts of an ignore file or
/// left out.
pub proof fn comments_and_blank_lines_are_skipped(
    before: Seq<char>,
    line: Seq<char>,
    after: Seq<char>,
)
    requires
        !line.contains('\n'),
        !is_pattern_line(trimmed(line)),
    ensures
        file_patterns(before + seq!['\n'] + (line + seq!['\n'] + after)) == file_patterns(
            before + seq!['\n'] + after,
        ),
        file_patterns(line + seq!['\n'] + after) == file_patterns(after),
        file_patterns(before + seq!['\n'] + line) == file_patterns(before),
{
    let rest = line + seq!['\n'] + after;
    one_line_is_one_pattern(line);
    ignore_files_add_up(before, rest, Seq::empty());
    ignore_files_add_up(line, after, Seq::empty());
    ignore_files_add_up(before, after, Seq::empty());
    ignore_files_add_up(before, line, Seq::empty());
    assert(Seq::<PatternView>::empty() + file_patterns(after) =~= file_patterns(after));
    assert(file_patterns(before) + Seq::<PatternView>::empty() =~= file_patterns(before));
}

/// White space round a line changes no pattern.
pub proof fn outer_white_space_is_skipped(
    before: Seq<char>,
    left: Seq<char>,
    line: Seq<char>,
    right: Seq<char>,
    after: Seq<char>,
)
    requires
        !line.contains('\n'),
        !left.contains('\n'),
        !right.contains('\n'),
        forall|i: int| 0 <= i < left.len() ==> white_space(#[trigger] left[i]),
        forall|i: int| 0 <= i < right.len() ==> white_space(#[trigger] right[i]),
    ensures
        file_patterns(before + seq!['\n'] + ((left + line + right) + seq!['\n'] + after))
            == file_patterns(before + seq!['\n'] + (line + seq!['\n'] + after)),
        file_patterns(left + line + right) == file_patterns(line),
{
    let padded = left + line + right;
    assert forall|i: int| 0 <= i < padded.len() implies #[trigger] padded[i] != '\n' by {
        if i < left.len() {
            assert(left.contains(left[i]));
        } else if i < left.len() + line.len() {
            assert(line.contains(line[i - left.len()]));
        } else {
            assert(right.contains(right[i - left.len() - line.len()]));
        }
    }
    assert forall|i: int| 0 <= i < left.len() implies blank()(#[trigger] left[i]) by {}
    assert forall|i: int| 0 <= i < right.len() implies blank()(#[trigger] right[i]) by {}
    lemma_trimmed_padded(left, line, right, blank());
    one_line_is_one_pattern(padded);
    one_line_is_one_pattern(line);
    ignore_files_add_up(padded, after, Seq::empty());
    ignore_files_add_up(line, after, Seq::empty());
    ignore_files_add_up(before, padded + seq!['\n'] + after, Seq::empty());
    ignore_files_add_up(before, line + seq!['\n'] + after, Seq::empty());
}

/// A file has no pattern exactly when each of its lines, without the white space
/// round it, is empty or a comment.
pub proof fn empty_files_have_no_pattern_line(src: Seq<char>)
    ensures
        file_patterns(src).len() == 0 <==> forall|i: int|
            0 <= i < lines_of(src).len() ==> !is_pattern_line(trimmed(#[trigger] lines_of(src)[i])),
{
    let l = lines_of(src);
    let t = |l: Seq<char>| trimmed(l);
    let p = |l: Seq<char>| is_pattern_line(l);
    let x = l.map_values(t);
    if x.filter(p).len() > 0 {
        let y = x.filter(p)[0];
        assert(x.filter(p).contains(y));
        crate::order::lemma_filter_member(x, p, y);
        let i = x.index_of(y);
        assert(x[i] == trimmed(l[i]));
    }
    if exists|i: int| 0 <= i < l.len() && is_pattern_line(trimmed(#[trigger] l[i])) {
        let i = choose|i: int| 0 <= i < l.len() && is_pattern_line(trimmed(#[trigger] l[i]));
        assert(x[i] == trimmed(l[i]));
        assert(x.contains(x[i]));
        crate::order::lemma_filter_member(x, p, x[i]);
        let k = x.filter(p).index_of(x[i]);
        assert(x.filter(p).len() > 0);
    }
}

/// A line ignores just the paths that it matches: without a `*`, those that it
/// stands in anywhere; with one, those that it matches as a whole or in a
/// component. Blank lines and comments ignore nothing.
pub proof fn lines_ignore_what_they_match(line: Seq<char>, path: Seq<char>)
    requires
        !line.contains('\n'),
    ensures
        ({
            let l = trimmed(line);
            let q = replaced(path, '\\', '/');
            &&& l.len() == 0 || l[0] == '#' ==> !ignores(file_patterns(line), path)
            &&& l.len() > 0 && l[0] != '#' && !l.contains('*') ==> (ignores(
                file_patterns(line),
                path,
            ) <==> exists|a: Seq<char>, b: Seq<char>| q == #[trigger] (a + l + b))
            &&& l.len() > 0 && l[0] != '#' && l.contains('*') ==> (ignores(
                file_patterns(line),
                path,
            ) <==> glob(l, q) || exists|c: Seq<char>| #[trigger]
                pieces(q, only('/')).contains(c) && glob(l, c))
        }),
{
    one_line_is_one_pattern(line);
    let l = trimmed(line);
    let q = replaced(path, '\\', '/');
    let f = file_patterns(line);
    if l.len() > 0 && l[0] != '#' {
        assert(f.len() == 1);
        let p = f[0];
        assert(ignores(f, path) <==> pattern_matches(p, q));
        if l.contains('*') {
            let ps = pieces(q, only('/'));
            if exists|c: Seq<char>| #[trigger] ps.contains(c) && glob(l, c) {
                let c = choose|c: Seq<char>| #[trigger] ps.contains(c) && glob(l, c);
                let i = ps.index_of(c);
                assert(glob(l, ps[i]));
            }
            if pattern_matches(p, q) && !glob(l, q) {
                let i = choose|i: int| 0 <= i < ps.len() && glob(l, #[trigger] ps[i]);
                assert(ps.contains(ps[i]));
            }
        } else {
            if occurs(q, l) {
                let at = choose|at: int| crate::text::occurs_at(q, l, at);
                let a = q.take(at);
                let b = q.skip(at + l.len());
                assert(q.subrange(at, at + l.len()) == l);
                assert(q =~= a + l + b);
            }
            if exists|a: Seq<char>, b: Seq<char>| q == #[trigger] (a + l + b) {
                let (a, b) = choose|a: Seq<char>, b: Seq<char>| q == #[trigger] (a + l + b);
                assert(q.subrange(a.len() as int, a.len() + l.len() as int) =~= l);
                assert(crate::text::occurs_at(q, l, a.len() as int));
            }
        }
    }
}

} // verus!
