//! Documentation that mentions changed symbols.
//!
//! An intra-doc link, `[Symbol]` with or without back ticks, is a strong
//! signal. A plain mention of a symbol of six characters or more is a weak one,
//! and counts only where the file has no link to the symbol. Each symbol is
//! reported once per file.
use crate::finding::{
    finding_views, new_finding, Finding, FindingKind, FindingView, KindView, Location,
    LocationView, Tier,
};
use crate::names::NameSet;
use crate::order::{lemma_filter_map, lemma_filter_member, retain_marked};
use crate::scan::{
    is_word, lemma_contains_add, mentions, mentions_are_whole_words, stands_alone_at,
};
use crate::symbols::{file_views, FileView, SourceFile};
use crate::text::{
    before, begins, blank, chars_of, decimal, decimal_text, find_from, first_at, is_one_of, letter,
    letter_or_digit, lines, lines_of, occurs_at, only, pieces, split_words, start_trimmed,
    string_range, strip_prefix, texts, trim, trim_char, trim_start, trimmed, trimmed_by,
    white_space, word_break,
};
use vstd::prelude::*;
use vstd::string::*;

verus! {

/// Whether a text is an identifier.
pub open spec fn plain_ident(s: Seq<char>) -> bool {
    &&& s.len() > 0
    &&& (letter(s[0]) || s[0] == '_')
    &&& forall|i: int| 0 <= i < s.len() ==> letter_or_digit(#[trigger] s[i]) || s[i] == '_'
}

/// Whether a text is an identifier.
pub fn is_plain_ident(s: &str) -> (r: bool)
    ensures
        r == plain_ident(s@),
{
    let v = chars_of(s);
    if v.len() == 0 {
        return false;
    }
    if !(v[0].is_alphabetic() || v[0] == '_') {
        return false;
    }
    let mut i: usize = 0;
    while i < v.len()
        invariant
            i <= v@.len(),
            v@ == s@,
            forall|j: int| 0 <= j < i ==> letter_or_digit(#[trigger] v@[j]) || v@[j] == '_',
        decreases v@.len() - i,
    {
        if !(v[i].is_alphanumeric() || v[i] == '_') {
            proof {
                assert(!(letter_or_digit(s@[i as int]) || s@[i as int] == '_'));
            }
            return false;
        }
        i = i + 1;
    }
    true
}

/// The part of a qualified path before its first `::`.
pub open spec fn path_head(s: Seq<char>) -> Seq<char> {
    trimmed(s.take(find_from(s, "::"@, 0)))
}

/// The identifiers that the text between brackets links to: one, or none.
pub open spec fn link_target(inner: Seq<char>) -> Seq<Seq<char>> {
    let head = path_head(trimmed_by(trimmed(inner), only('`')));
    if plain_ident(head) {
        seq![head]
    } else {
        Seq::empty()
    }
}

/// The leading identifier of a path: `Trait::method` gives `Trait`.
pub fn leading_ident(s: &str) -> (r: Option<String>)
    ensures
        match r {
            Some(t) => t@ == path_head(s@) && plain_ident(t@),
            None => !plain_ident(path_head(s@)),
        },
{
    let head = trim(before(s, "::").as_str());
    if is_plain_ident(head.as_str()) {
        Some(head)
    } else {
        None
    }
}

/// The link targets of `s[from..]`. A bracket that is followed by `(` is a
/// hyperlink and no target.
pub open spec fn targets_from(s: Seq<char>, from: int) -> Seq<Seq<char>>
    decreases s.len() - from,
{
    if from < 0 || from >= s.len() {
        Seq::empty()
    } else if s[from] == '[' {
        let close = first_at(s, only(']'), from + 1);
        if close <= from || close >= s.len() {
            targets_from(s, from + 1)
        } else if close + 1 < s.len() && s[close + 1] == '(' {
            targets_from(s, close + 1)
        } else {
            link_target(s.subrange(from + 1, close)) + targets_from(s, close + 1)
        }
    } else {
        targets_from(s, from + 1)
    }
}

/// The identifiers that a line links to, in order.
pub fn extract_bracketed(line: &str) -> (r: Vec<String>)
    ensures
        texts(r@) == targets_from(line@, 0),
{
    let v = chars_of(line);
    let ghost all = targets_from(v@, 0);
    let mut out: Vec<String> = Vec::new();
    let mut i: usize = 0;
    proof {
        assert(texts(out@) + targets_from(v@, 0) =~= all);
    }
    while i < v.len()
        invariant
            i <= v@.len(),
            all == texts(out@) + targets_from(v@, i as int),
        decreases v@.len() - i,
    {
        if v[i] != '[' {
            i = i + 1;
            continue;
        }
        let mut close: usize = i + 1;
        while close < v.len() && v[close] != ']'
            invariant
                i < close <= v@.len(),
                first_at(v@, only(']'), i + 1) == first_at(v@, only(']'), close as int),
            decreases v@.len() - close,
        {
            close = close + 1;
        }
        if close >= v.len() {
            i = i + 1;
            continue;
        }
        if close + 1 < v.len() && v[close + 1] == '(' {
            i = close + 1;
            continue;
        }
        let inner = string_range(&v, i + 1, close);
        let bare = trim_char(trim(inner.as_str()).as_str(), '`');
        let ghost found = link_target(v@.subrange(i + 1, close as int));
        let ghost tail = targets_from(v@, close + 1);
        match leading_ident(bare.as_str()) {
            Some(t) => {
                proof {
                    assert(texts(out@.push(t)) =~= texts(out@) + seq![t@]);
                    assert(texts(out@) + seq![t@] + tail =~= texts(out@) + (found + tail));
                }
                out.push(t);
            },
            None => {
                proof {
                    assert(found + tail =~= tail);
                }
            },
        }
        i = close + 1;
    }
    proof {
        assert(texts(out@) + targets_from(v@, v@.len() as int) =~= texts(out@));
    }
    out
}

/// What a scan of a file has come to: its findings, the symbols it has seen
/// linked, and those it has seen mentioned.
pub struct DriftView {
    pub out: Seq<FindingView>,
    pub links: Seq<Seq<char>>,
    pub words: Seq<Seq<char>>,
}

/// The finding for a link.
pub open spec fn link_finding(file: Seq<char>, symbol: Seq<char>, line: nat) -> FindingView {
    new_finding(
        ""@,
        Tier::Likely,
        90,
        KindView::DocDriftLink { symbol, doc: LocationView { file, symbol }, line },
        "`"@ + symbol + "` referenced via intra-doc link in "@ + file + ":"@ + decimal(line),
    )
}

/// The finding for a mention.
pub open spec fn keyword_finding(file: Seq<char>, symbol: Seq<char>, line: nat) -> FindingView {
    new_finding(
        ""@,
        Tier::Possible,
        40,
        KindView::DocDriftKeyword { symbol, doc: LocationView { file, symbol }, line },
        "`"@ + symbol + "` mentioned in "@ + file + ":"@ + decimal(line)
            + " (plain keyword, not an intra-doc link)"@,
    )
}

/// A scan after the first `n` links of a line.
pub open spec fn after_links(
    st: DriftView,
    targets: Seq<Seq<char>>,
    file: Seq<char>,
    line: nat,
    changed: Seq<Seq<char>>,
    n: nat,
) -> DriftView
    decreases n,
{
    if n == 0 {
        st
    } else {
        let s = after_links(st, targets, file, line, changed, (n - 1) as nat);
        let t = targets[n - 1];
        if changed.contains(t) && !s.links.contains(t) {
            DriftView {
                out: s.out.push(link_finding(file, t, line)),
                links: s.links.push(t),
                words: s.words,
            }
        } else {
            s
        }
    }
}

/// A scan after the first `n` words of a line.
pub open spec fn after_words(
    st: DriftView,
    tokens: Seq<Seq<char>>,
    file: Seq<char>,
    line: nat,
    changed: Seq<Seq<char>>,
    n: nat,
) -> DriftView
    decreases n,
{
    if n == 0 {
        st
    } else {
        let s = after_words(st, tokens, file, line, changed, (n - 1) as nat);
        let t = tokens[n - 1];
        if t.len() >= 6 && changed.contains(t) && !s.words.contains(t) {
            DriftView {
                out: s.out.push(keyword_finding(file, t, line)),
                links: s.links,
                words: s.words.push(t),
            }
        } else {
            s
        }
    }
}

/// A scan after one more line: its links, then its words.
pub open spec fn after_line(
    st: DriftView,
    text: Seq<char>,
    file: Seq<char>,
    line: nat,
    changed: Seq<Seq<char>>,
) -> DriftView {
    let targets = targets_from(text, 0);
    let tokens = pieces(text, word_break());
    after_words(
        after_links(st, targets, file, line, changed, targets.len()),
        tokens,
        file,
        line,
        changed,
        tokens.len(),
    )
}

/// Number of the line at an index.
pub open spec fn line_number(index: nat) -> nat {
    if index + 1 <= u32::MAX {
        index + 1
    } else {
        u32::MAX as nat
    }
}

/// A scan after the first `n` numbered lines.
pub open spec fn after_lines(
    numbered: Seq<(nat, Seq<char>)>,
    file: Seq<char>,
    changed: Seq<Seq<char>>,
    n: nat,
) -> DriftView
    decreases n,
{
    if n == 0 {
        DriftView { out: Seq::empty(), links: Seq::empty(), words: Seq::empty() }
    } else {
        after_line(
            after_lines(numbered, file, changed, (n - 1) as nat),
            numbered[n - 1].1,
            file,
            numbered[n - 1].0,
            changed,
        )
    }
}

/// Whether a finding is no mention of one of the linked symbols.
pub open spec fn unlinked(links: Seq<Seq<char>>) -> spec_fn(FindingView) -> bool {
    |f: FindingView|
        match f.kind {
            KindView::DocDriftKeyword { symbol, .. } => !links.contains(symbol),
            _ => true,
        }
}

/// The findings of a scan: all links, and the mentions of symbols that are
/// linked nowhere in the file.
pub open spec fn drift_findings(st: DriftView) -> Seq<FindingView> {
    st.out.filter(unlinked(st.links))
}

/// The numbered lines of a text.
pub open spec fn numbered_lines(src: Seq<char>) -> Seq<(nat, Seq<char>)> {
    let l = lines_of(src);
    Seq::new(l.len(), |i: int| (line_number(i as nat), l[i]))
}

/// The text of a doc comment line, without one leading space.
pub open spec fn doc_text(line: Seq<char>) -> Option<Seq<char>> {
    let t = start_trimmed(line);
    if begins(t, "///"@) || begins(t, "//!"@) {
        let body = t.skip(3);
        Some(
            if begins(body, " "@) {
                body.skip(1)
            } else {
                body
            },
        )
    } else {
        None
    }
}

/// The doc comment lines among the first `n` lines of a source text.
pub open spec fn doc_lines(l: Seq<Seq<char>>, n: nat) -> Seq<(nat, Seq<char>)>
    decreases n,
{
    if n == 0 {
        Seq::empty()
    } else {
        let rest = doc_lines(l, (n - 1) as nat);
        match doc_text(l[n - 1]) {
            Some(t) => rest.push((line_number((n - 1) as nat), t)),
            None => rest,
        }
    }
}

/// Numbered lines as plain data.
pub open spec fn numbered_views(s: Seq<(u32, String)>) -> Seq<(nat, Seq<char>)> {
    s.map_values(|p: (u32, String)| (p.0 as nat, p.1@))
}

fn line_no(index: usize) -> (r: u32)
    ensures
        r == line_number(index as nat),
{
    if index < 0xffff_ffff {
        (index + 1) as u32
    } else {
        0xffff_ffff
    }
}

fn doc_body(line: &str) -> (r: Option<String>)
    ensures
        crate::finding::opt_text(r) == doc_text(line@),
{
    proof {
        reveal_strlit("///");
        reveal_strlit("//!");
        reveal_strlit(" ");
        assert("///"@.len() == 3);
        assert("//!"@.len() == 3);
        assert(" "@.len() == 1);
    }
    let t = trim_start(line);
    let body = match strip_prefix(t.as_str(), "///") {
        Some(b) => b,
        None => match strip_prefix(t.as_str(), "//!") {
            Some(b) => b,
            None => {
                return None;
            },
        },
    };
    match strip_prefix(body.as_str(), " ") {
        Some(b) => Some(b),
        None => Some(body),
    }
}

/// The doc comment lines of Rust source, with their line numbers.
pub fn extract_doc_lines(src: &str) -> (r: Vec<(u32, String)>)
    ensures
        numbered_views(r@) == doc_lines(lines_of(src@), lines_of(src@).len()),
{
    let all = lines(src);
    let ghost l = lines_of(src@);
    let mut out: Vec<(u32, String)> = Vec::new();
    let mut i: usize = 0;
    proof {
        assert(numbered_views(out@) =~= Seq::empty());
        assert(texts(all@).len() == all@.len());
    }
    while i < all.len()
        invariant
            i <= all@.len(),
            texts(all@) == l,
            numbered_views(out@) == doc_lines(l, i as nat),
        decreases all@.len() - i,
    {
        proof {
            assert(l[i as int] == all@[i as int]@);
        }
        match doc_body(all[i].as_str()) {
            Some(t) => {
                let n = line_no(i);
                proof {
                    assert(numbered_views(out@.push((n, t))) =~= numbered_views(out@).push(
                        (n as nat, t@),
                    ));
                }
                out.push((n, t));
            },
            None => {},
        }
        i = i + 1;
    }
    out
}

/// A scan of a file in progress.
struct Drift {
    out: Vec<Finding>,
    links: Vec<String>,
    words: Vec<String>,
}

impl View for Drift {
    type V = DriftView;

    closed spec fn view(&self) -> DriftView {
        DriftView {
            out: finding_views(self.out@),
            links: texts(self.links@),
            words: texts(self.words@),
        }
    }
}

fn make_link(file: &str, symbol: &str, line: u32) -> (r: Finding)
    ensures
        r@ == link_finding(file@, symbol@, line as nat),
{
    let mut evidence = "`".to_owned();
    evidence.append(symbol);
    evidence.append("` referenced via intra-doc link in ");
    evidence.append(file);
    evidence.append(":");
    evidence.append(decimal_text(line as u64).as_str());
    let kind = FindingKind::DocDriftLink {
        symbol: symbol.to_owned(),
        doc: Location { file: file.to_owned(), symbol: symbol.to_owned() },
        line,
    };
    Finding::new("", Tier::Likely, 90, kind, evidence.as_str())
}

fn make_keyword(file: &str, symbol: &str, line: u32) -> (r: Finding)
    ensures
        r@ == keyword_finding(file@, symbol@, line as nat),
{
    let mut evidence = "`".to_owned();
    evidence.append(symbol);
    evidence.append("` mentioned in ");
    evidence.append(file);
    evidence.append(":");
    evidence.append(decimal_text(line as u64).as_str());
    evidence.append(" (plain keyword, not an intra-doc link)");
    let kind = FindingKind::DocDriftKeyword {
        symbol: symbol.to_owned(),
        doc: Location { file: file.to_owned(), symbol: symbol.to_owned() },
        line,
    };
    Finding::new("", Tier::Possible, 40, kind, evidence.as_str())
}

/// Scans one line.
fn emit_for_line(st: Drift, text: &str, line: u32, file: &str, changed: &NameSet) -> (r: Drift)
    ensures
        r@ == after_line(st@, text@, file@, line as nat, changed@),
{
    let ghost start = st@;
    let mut st = st;
    let targets = extract_bracketed(text);
    let ghost ts = targets_from(text@, 0);
    let mut i: usize = 0;
    proof {
        assert(ts.len() == targets@.len());
    }
    while i < targets.len()
        invariant
            i <= targets@.len(),
            texts(targets@) == ts,
            st@ == after_links(start, ts, file@, line as nat, changed@, i as nat),
        decreases targets@.len() - i,
    {
        proof {
            assert(ts[i as int] == targets@[i as int]@);
        }
        let t = targets[i].as_str();
        if changed.contains(t) && !is_one_of(&st.links, t) {
            let f = make_link(file, t, line);
            proof {
                assert(finding_views(st.out@.push(f)) =~= finding_views(st.out@).push(f@));
                assert(texts(st.links@.push(targets@[i as int])) =~= texts(st.links@).push(t@));
            }
            st.out.push(f);
            st.links.push(targets[i].clone());
        }
        i = i + 1;
    }
    let ghost middle = st@;
    let tokens = split_words(text);
    let ghost ws = pieces(text@, word_break());
    let mut k: usize = 0;
    proof {
        assert(ws.len() == tokens@.len());
    }
    while k < tokens.len()
        invariant
            k <= tokens@.len(),
            texts(tokens@) == ws,
            st@ == after_words(middle, ws, file@, line as nat, changed@, k as nat),
        decreases tokens@.len() - k,
    {
        proof {
            assert(ws[k as int] == tokens@[k as int]@);
        }
        let t = tokens[k].as_str();
        if t.unicode_len() >= 6 && changed.contains(t) && !is_one_of(&st.words, t) {
            proof {
                assert(texts(st.words@.push(tokens@[k as int])) =~= texts(st.words@).push(t@));
            }
            let f = make_keyword(file, t, line);
            proof {
                assert(finding_views(st.out@.push(f)) =~= finding_views(st.out@).push(f@));
            }
            st.out.push(f);
            st.words.push(tokens[k].clone());
        }
        k = k + 1;
    }
    st
}

fn scan_numbered(numbered: &Vec<(u32, String)>, file: &str, changed: &NameSet) -> (r: Vec<Finding>)
    ensures
        finding_views(r@) == drift_findings(
            after_lines(numbered_views(numbered@), file@, changed@, numbered@.len()),
        ),
{
    let ghost ns = numbered_views(numbered@);
    let mut st = Drift { out: Vec::new(), links: Vec::new(), words: Vec::new() };
    let mut i: usize = 0;
    proof {
        assert(finding_views(st.out@) =~= Seq::empty());
        assert(texts(st.links@) =~= Seq::empty());
        assert(texts(st.words@) =~= Seq::empty());
    }
    while i < numbered.len()
        invariant
            i <= numbered@.len(),
            ns == numbered_views(numbered@),
            st@ == after_lines(ns, file@, changed@, i as nat),
        decreases numbered@.len() - i,
    {
        proof {
            assert(ns[i as int] == (numbered@[i as int].0 as nat, numbered@[i as int].1@));
        }
        st = emit_for_line(st, numbered[i].1.as_str(), numbered[i].0, file, changed);
        i = i + 1;
    }
    keep_unlinked(st.out, &st.links)
}

fn keep_unlinked(findings: Vec<Finding>, links: &Vec<String>) -> (r: Vec<Finding>)
    ensures
        finding_views(r@) == finding_views(findings@).filter(unlinked(texts(links@))),
{
    let ghost p = unlinked(texts(links@));
    let ghost g = |f: Finding| f@;
    let ghost q = |f: Finding| p(g(f));
    let mut keep: Vec<bool> = Vec::new();
    let mut i: usize = 0;
    while i < findings.len()
        invariant
            i <= findings@.len(),
            keep@.len() == i,
            p == unlinked(texts(links@)),
            forall|j: int| 0 <= j < i ==> keep@[j] == p((#[trigger] findings@[j])@),
        decreases findings@.len() - i,
    {
        let one = match &findings[i].kind {
            FindingKind::DocDriftKeyword { symbol, .. } => !is_one_of(links, symbol.as_str()),
            _ => true,
        };
        keep.push(one);
        i = i + 1;
    }
    let ghost all = findings@;
    proof {
        lemma_filter_map(all, q, g, p);
    }
    retain_marked(findings, &keep, Ghost(q))
}

/// The findings for a markdown file.
pub open spec fn markdown_drift(file: FileView, changed: Seq<Seq<char>>) -> Seq<FindingView> {
    let n = numbered_lines(file.text);
    drift_findings(after_lines(n, file.path, changed, n.len()))
}

/// The findings for the doc comments of a Rust file.
pub open spec fn comment_drift(file: FileView, changed: Seq<Seq<char>>) -> Seq<FindingView> {
    let l = lines_of(file.text);
    let n = doc_lines(l, l.len());
    drift_findings(after_lines(n, file.path, changed, n.len()))
}

/// The findings for the first `n` markdown files.
pub open spec fn all_markdown(files: Seq<FileView>, changed: Seq<Seq<char>>, n: nat) -> Seq<
    FindingView,
>
    decreases n,
{
    if n == 0 {
        Seq::empty()
    } else {
        all_markdown(files, changed, (n - 1) as nat) + markdown_drift(files[n - 1], changed)
    }
}

/// The findings for the doc comments of the first `n` Rust files.
pub open spec fn all_comments(files: Seq<FileView>, changed: Seq<Seq<char>>, n: nat) -> Seq<
    FindingView,
>
    decreases n,
{
    if n == 0 {
        Seq::empty()
    } else {
        all_comments(files, changed, (n - 1) as nat) + comment_drift(files[n - 1], changed)
    }
}

/// The findings for the documentation of the workspace: markdown files, then
/// doc comments.
pub open spec fn doc_drift(
    docs: Seq<FileView>,
    sources: Seq<FileView>,
    changed: Seq<Seq<char>>,
) -> Seq<FindingView> {
    if changed.len() == 0 {
        Seq::empty()
    } else {
        all_markdown(docs, changed, docs.len()) + all_comments(sources, changed, sources.len())
    }
}

pub fn scan_markdown(file: &SourceFile, changed: &NameSet) -> (r: Vec<Finding>)
    ensures
        finding_views(r@) == markdown_drift(file@, changed@),
{
    let all = lines(file.text.as_str());
    let ghost l = lines_of(file.text@);
    let mut numbered: Vec<(u32, String)> = Vec::new();
    let mut i: usize = 0;
    proof {
        assert(l.len() == all@.len());
    }
    while i < all.len()
        invariant
            i <= all@.len(),
            texts(all@) == l,
            numbered@.len() == i,
            forall|j: int|
                0 <= j < i ==> (#[trigger] numbered@[j]).0 == line_number(j as nat)
                    && numbered@[j].1@ == l[j],
        decreases all@.len() - i,
    {
        proof {
            assert(l[i as int] == all@[i as int]@);
        }
        numbered.push((line_no(i), all[i].clone()));
        i = i + 1;
    }
    proof {
        assert(numbered_views(numbered@) =~= numbered_lines(file.text@));
    }
    scan_numbered(&numbered, file.path.as_str(), changed)
}

pub fn scan_comments(file: &SourceFile, changed: &NameSet) -> (r: Vec<Finding>)
    ensures
        finding_views(r@) == comment_drift(file@, changed@),
{
    let numbered = extract_doc_lines(file.text.as_str());
    proof {
        assert(numbered_views(numbered@).len() == numbered@.len());
    }
    scan_numbered(&numbered, file.path.as_str(), changed)
}

/// The documentation of the workspace that mentions changed symbols.
pub fn find_doc_drift(docs: &Vec<SourceFile>, sources: &Vec<SourceFile>, changed: &NameSet) -> (r:
    Vec<Finding>)
    ensures
        finding_views(r@) == doc_drift(file_views(docs@), file_views(sources@), changed@),
{
    let mut out: Vec<Finding> = Vec::new();
    let ghost ds = file_views(docs@);
    let ghost ss = file_views(sources@);
    proof {
        assert(finding_views(out@) =~= Seq::empty());
    }
    if changed.is_empty() {
        return out;
    }
    let mut i: usize = 0;
    while i < docs.len()
        invariant
            i <= docs@.len(),
            ds == file_views(docs@),
            finding_views(out@) == all_markdown(ds, changed@, i as nat),
        decreases docs@.len() - i,
    {
        let ghost before = out@;
        let mut more = scan_markdown(&docs[i], changed);
        let ghost added = more@;
        out.append(&mut more);
        proof {
            assert(ds[i as int] == docs@[i as int]@);
            assert(finding_views(out@) =~= finding_views(before) + finding_views(added));
        }
        i = i + 1;
    }
    let ghost first = all_markdown(ds, changed@, ds.len());
    let mut k: usize = 0;
    proof {
        assert(first + all_comments(ss, changed@, 0) =~= first);
    }
    while k < sources.len()
        invariant
            k <= sources@.len(),
            ss == file_views(sources@),
            finding_views(out@) == first + all_comments(ss, changed@, k as nat),
        decreases sources@.len() - k,
    {
        let ghost before = out@;
        let mut more = scan_comments(&sources[k], changed);
        let ghost added = more@;
        out.append(&mut more);
        proof {
            assert(ss[k as int] == sources@[k as int]@);
            assert(finding_views(out@) =~= finding_views(before) + finding_views(added));
            assert(first + all_comments(ss, changed@, k as nat) + finding_views(added) =~= first + (
            all_comments(ss, changed@, k as nat) + finding_views(added)));
        }
        k = k + 1;
    }
    out
}

// ---------------------------------------------------------------------------
// Laws
// ---------------------------------------------------------------------------

/// Bracketed text that is followed by `(` is a hyperlink and links to nothing.
pub proof fn hyperlinks_are_no_targets(text: Seq<char>, url: Seq<char>)
    requires
        !text.contains(']'),
        !url.contains('['),
    ensures
        targets_from(seq!['['] + text + seq![']', '('] + url, 0).len() == 0,
{
    let s = seq!['['] + text + seq![']', '('] + url;
    let close = (text.len() + 1) as int;
    assert(s[0] == '[');
    assert(s[close] == ']');
    assert(s[close + 1] == '(');
    assert forall|j: int| 1 <= j < close implies !only(']')(#[trigger] s[j]) by {
        assert(s[j] == text[j - 1]);
        if s[j] == ']' {
            assert(text.contains(text[j - 1]));
        }
    }
    crate::text::lemma_first_at_is(s, only(']'), 1, close as int);
    assert forall|j: int| close + 1 <= j < s.len() implies s[j] != '[' by {
        if j > close + 1 {
            assert(s[j] == url[j - close - 2]);
            if s[j] == '[' {
                assert(url.contains(url[j - close - 2]));
            }
        }
    }
    lemma_no_targets(s, close + 1);
}

proof fn lemma_no_targets(s: Seq<char>, from: int)
    requires
        0 <= from,
        forall|j: int| from <= j < s.len() ==> s[j] != '[',
    ensures
        targets_from(s, from).len() == 0,
    decreases s.len() - from,
{
    if from < s.len() {
        lemma_no_targets(s, from + 1);
    }
}

/// A line adds no second link finding for a symbol that was linked before.
pub proof fn links_are_reported_once(
    st: DriftView,
    targets: Seq<Seq<char>>,
    file: Seq<char>,
    line: nat,
    changed: Seq<Seq<char>>,
    n: nat,
)
    requires
        n <= targets.len(),
        forall|i: int| 0 <= i < targets.len() ==> st.links.contains(#[trigger] targets[i]),
    ensures
        after_links(st, targets, file, line, changed, n) == st,
    decreases n,
{
    if n > 0 {
        links_are_reported_once(st, targets, file, line, changed, (n - 1) as nat);
        assert(st.links.contains(targets[n - 1]));
    }
}

/// Whether a finding is a link.
pub open spec fn is_link(f: FindingView) -> bool {
    f.kind is DocDriftLink
}

/// The symbol that a finding links to or mentions.
pub open spec fn drift_symbol(f: FindingView) -> Seq<char> {
    match f.kind {
        KindView::DocDriftLink { symbol, .. } => symbol,
        KindView::DocDriftKeyword { symbol, .. } => symbol,
        _ => Seq::empty(),
    }
}

/// What holds in the middle of a scan: every finding is a link to a symbol that
/// counts as linked, or a mention of one that counts as mentioned, and neither
/// two links nor two mentions are of the same symbol.
pub open spec fn is_drift(st: DriftView) -> bool {
    &&& forall|i: int|
        0 <= i < st.out.len() ==> if is_link(#[trigger] st.out[i]) {
            st.links.contains(drift_symbol(st.out[i]))
        } else {
            st.out[i].kind is DocDriftKeyword && st.words.contains(drift_symbol(st.out[i]))
        }
    &&& forall|i: int, j: int|
        #![trigger st.out[i], st.out[j]]
        0 <= i < j < st.out.len() && is_link(st.out[i]) == is_link(st.out[j]) ==> drift_symbol(
            st.out[i],
        ) != drift_symbol(st.out[j])
}

proof fn lemma_link_step(st: DriftView, f: FindingView, t: Seq<char>)
    requires
        is_drift(st),
        is_link(f),
        drift_symbol(f) == t,
        !st.links.contains(t),
    ensures
        is_drift(DriftView { out: st.out.push(f), links: st.links.push(t), words: st.words }),
{
    let r = DriftView { out: st.out.push(f), links: st.links.push(t), words: st.words };
    assert(r.links[st.links.len() as int] == t);
    assert forall|i: int| 0 <= i < r.out.len() implies if is_link(#[trigger] r.out[i]) {
        r.links.contains(drift_symbol(r.out[i]))
    } else {
        r.out[i].kind is DocDriftKeyword && r.words.contains(drift_symbol(r.out[i]))
    } by {
        if i < st.out.len() {
            assert(r.out[i] == st.out[i]);
            if is_link(st.out[i]) {
                let k = st.links.index_of(drift_symbol(st.out[i]));
                assert(r.links[k] == drift_symbol(st.out[i]));
            }
        }
    }
    assert forall|i: int, j: int|
        #![trigger r.out[i], r.out[j]]
        0 <= i < j < r.out.len() && is_link(r.out[i]) == is_link(r.out[j]) implies drift_symbol(
        r.out[i],
    ) != drift_symbol(r.out[j]) by {
        assert(r.out[i] == st.out[i]);
        if j < st.out.len() {
            assert(r.out[j] == st.out[j]);
        }
    }
}

proof fn lemma_word_step(st: DriftView, f: FindingView, t: Seq<char>)
    requires
        is_drift(st),
        f.kind is DocDriftKeyword,
        drift_symbol(f) == t,
        !st.words.contains(t),
    ensures
        is_drift(DriftView { out: st.out.push(f), links: st.links, words: st.words.push(t) }),
{
    let r = DriftView { out: st.out.push(f), links: st.links, words: st.words.push(t) };
    assert(r.words[st.words.len() as int] == t);
    assert forall|i: int| 0 <= i < r.out.len() implies if is_link(#[trigger] r.out[i]) {
        r.links.contains(drift_symbol(r.out[i]))
    } else {
        r.out[i].kind is DocDriftKeyword && r.words.contains(drift_symbol(r.out[i]))
    } by {
        if i < st.out.len() {
            assert(r.out[i] == st.out[i]);
            if !is_link(st.out[i]) {
                let k = st.words.index_of(drift_symbol(st.out[i]));
                assert(r.words[k] == drift_symbol(st.out[i]));
            }
        }
    }
    assert forall|i: int, j: int|
        #![trigger r.out[i], r.out[j]]
        0 <= i < j < r.out.len() && is_link(r.out[i]) == is_link(r.out[j]) implies drift_symbol(
        r.out[i],
    ) != drift_symbol(r.out[j]) by {
        assert(r.out[i] == st.out[i]);
        if j < st.out.len() {
            assert(r.out[j] == st.out[j]);
        }
    }
}

proof fn lemma_links_drift(
    st: DriftView,
    targets: Seq<Seq<char>>,
    file: Seq<char>,
    line: nat,
    changed: Seq<Seq<char>>,
    n: nat,
)
    requires
        is_drift(st),
    ensures
        is_drift(after_links(st, targets, file, line, changed, n)),
    decreases n,
{
    if n > 0 {
        lemma_links_drift(st, targets, file, line, changed, (n - 1) as nat);
        let s = after_links(st, targets, file, line, changed, (n - 1) as nat);
        let t = targets[n - 1];
        if changed.contains(t) && !s.links.contains(t) {
            lemma_link_step(s, link_finding(file, t, line), t);
        }
    }
}

proof fn lemma_words_drift(
    st: DriftView,
    tokens: Seq<Seq<char>>,
    file: Seq<char>,
    line: nat,
    changed: Seq<Seq<char>>,
    n: nat,
)
    requires
        is_drift(st),
    ensures
        is_drift(after_words(st, tokens, file, line, changed, n)),
    decreases n,
{
    if n > 0 {
        lemma_words_drift(st, tokens, file, line, changed, (n - 1) as nat);
        let s = after_words(st, tokens, file, line, changed, (n - 1) as nat);
        let t = tokens[n - 1];
        if t.len() >= 6 && changed.contains(t) && !s.words.contains(t) {
            lemma_word_step(s, keyword_finding(file, t, line), t);
        }
    }
}

proof fn lemma_lines_drift(
    numbered: Seq<(nat, Seq<char>)>,
    file: Seq<char>,
    changed: Seq<Seq<char>>,
    n: nat,
)
    ensures
        is_drift(after_lines(numbered, file, changed, n)),
    decreases n,
{
    if n > 0 {
        lemma_lines_drift(numbered, file, changed, (n - 1) as nat);
        let st = after_lines(numbered, file, changed, (n - 1) as nat);
        let (line, text) = numbered[n - 1];
        let targets = targets_from(text, 0);
        let tokens = pieces(text, word_break());
        lemma_links_drift(st, targets, file, line, changed, targets.len());
        let middle = after_links(st, targets, file, line, changed, targets.len());
        lemma_words_drift(middle, tokens, file, line, changed, tokens.len());
    }
}

/// No two findings are of the same symbol.
pub open spec fn distinct_symbols(s: Seq<FindingView>) -> bool {
    forall|i: int, j: int|
        #![trigger s[i], s[j]]
        0 <= i < j < s.len() ==> drift_symbol(s[i]) != drift_symbol(s[j])
}

proof fn lemma_kept_distinct(st: DriftView, n: int)
    requires
        is_drift(st),
        0 <= n <= st.out.len(),
    ensures
        distinct_symbols(st.out.take(n).filter(unlinked(st.links))),
    decreases n,
{
    let p = unlinked(st.links);
    if n == 0 {
        assert(st.out.take(0).filter(p) =~= Seq::empty()) by {
            reveal(Seq::filter);
        }
    } else {
        lemma_kept_distinct(st, n - 1);
        crate::text::lemma_filter_step(st.out, p, n - 1);
        let rest = st.out.take(n - 1).filter(p);
        let last = st.out[n - 1];
        if p(last) {
            let r = rest.push(last);
            assert forall|i: int, j: int| #![trigger r[i], r[j]] 0 <= i < j < r.len() implies
                drift_symbol(r[i]) != drift_symbol(r[j]) by {
                assert(r[i] == rest[i]);
                if j < rest.len() {
                    assert(r[j] == rest[j]);
                } else {
                    assert(rest.contains(rest[i]));
                    lemma_filter_member(st.out.take(n - 1), p, rest[i]);
                    let k = st.out.take(n - 1).index_of(rest[i]);
                    assert(st.out[k] == rest[i]);
                    assert(st.out[n - 1] == last);
                }
            }
        }
    }
}

/// A file has at most one finding for each symbol, and none of its findings is
/// a mention of a symbol that it links to.
pub proof fn symbols_are_reported_once(
    numbered: Seq<(nat, Seq<char>)>,
    file: Seq<char>,
    changed: Seq<Seq<char>>,
)
    ensures
        ({
            let st = after_lines(numbered, file, changed, numbered.len());
            let r = drift_findings(st);
            &&& distinct_symbols(r)
            &&& forall|i: int|
                0 <= i < r.len() ==> (is_link(#[trigger] r[i]) <==> st.links.contains(
                    drift_symbol(r[i]),
                ))
        }),
{
    lemma_lines_drift(numbered, file, changed, numbered.len());
    let st = after_lines(numbered, file, changed, numbered.len());
    let r = drift_findings(st);
    let p = unlinked(st.links);
    lemma_kept_distinct(st, st.out.len() as int);
    assert(st.out.take(st.out.len() as int) =~= st.out);
    assert forall|i: int| 0 <= i < r.len() implies (is_link(#[trigger] r[i])
        <==> st.links.contains(drift_symbol(r[i]))) by {
        assert(r.contains(r[i]));
        lemma_filter_member(st.out, p, r[i]);
        let k = st.out.index_of(r[i]);
        assert(st.out[k] == r[i]);
    }
}

proof fn lemma_targets_skip(s: Seq<char>, from: int, to: int)
    requires
        0 <= from <= to <= s.len(),
        forall|j: int| from <= j < to ==> s[j] != '[',
    ensures
        targets_from(s, from) == targets_from(s, to),
    decreases to - from,
{
    if from < to {
        assert(s[from] != '[');
        lemma_targets_skip(s, from + 1, to);
    }
}

proof fn lemma_targets_shift(front: Seq<char>, b: Seq<char>, k: int)
    requires
        0 <= k <= b.len(),
    ensures
        targets_from(front + b, front.len() + k) == targets_from(b, k),
    decreases b.len() - k,
{
    let w = front + b;
    let n = front.len() as int;
    if k < b.len() {
        assert(w[n + k] == b[k]);
        if b[k] == '[' {
            let p = only(']');
            let close = first_at(b, p, k + 1);
            crate::text::lemma_first_at(b, p, k + 1);
            assert forall|j: int| n + k + 1 <= j < n + close implies !p(#[trigger] w[j]) by {
                assert(w[j] == b[j - n]);
            }
            if close < b.len() {
                assert(w[n + close] == b[close]);
            }
            crate::text::lemma_first_at_is(w, p, n + k + 1, n + close);
            if close >= b.len() {
                lemma_targets_shift(front, b, k + 1);
            } else {
                lemma_targets_shift(front, b, close + 1);
                if close + 1 < b.len() {
                    assert(w[n + close + 1] == b[close + 1]);
                }
                assert(w.subrange(n + k + 1, n + close) =~= b.subrange(k + 1, close));
            }
        } else {
            lemma_targets_shift(front, b, k + 1);
        }
    }
}

/// A line is read bracket by bracket to its end. Behind a text without an opening
/// bracket, a bracketed text that no `(` follows brings its own target, and then
/// come all targets of what stands behind it; one that a `(` follows brings none.
/// A text without a bracketed part has no target.
pub proof fn brackets_are_read_one_by_one(a: Seq<char>, x: Seq<char>, b: Seq<char>)
    requires
        !a.contains('['),
        !x.contains(']'),
    ensures
        b.len() == 0 || b[0] != '(' ==> targets_from(a + seq!['['] + x + seq![']'] + b, 0)
            == targets_from(seq!['['] + x + seq![']'], 0) + targets_from(b, 0),
        b.len() > 0 && b[0] == '(' ==> targets_from(a + seq!['['] + x + seq![']'] + b, 0)
            == targets_from(b, 0),
        targets_from(a, 0).len() == 0,
        targets_from(a + seq!['['] + x, 0) == targets_from(x, 0),
{
    let front = a + seq!['['] + x + seq![']'];
    let s = front + b;
    let own = seq!['['] + x + seq![']'];
    let n = a.len() as int;
    let close = n + 1 + x.len();
    let p = only(']');
    assert forall|j: int| 0 <= j < n implies a[j] != '[' by {
        if a[j] == '[' {
            assert(a.contains(a[j]));
        }
    }
    assert forall|j: int| 0 <= j < x.len() implies x[j] != ']' by {
        if x[j] == ']' {
            assert(x.contains(x[j]));
        }
    }
    // Without brackets.
    lemma_no_targets(a, 0);
    // A bracket that is closed.
    assert forall|j: int| 0 <= j < n implies s[j] != '[' by {
        assert(s[j] == a[j]);
    }
    lemma_targets_skip(s, 0, n);
    assert(s[n] == '[');
    assert(s[close] == ']');
    assert forall|j: int| n + 1 <= j < close implies !p(#[trigger] s[j]) by {
        assert(s[j] == x[j - n - 1]);
    }
    crate::text::lemma_first_at_is(s, p, n + 1, close);
    assert(s.subrange(n + 1, close) =~= x);
    lemma_targets_shift(front, b, 0);
    if b.len() > 0 {
        assert(s[close + 1] == b[0]);
    }
    // The bracket alone.
    assert(own[0] == '[');
    let end: int = x.len() + 1int;
    assert(own[end] == ']');
    assert forall|j: int| 1 <= j < end implies !p(#[trigger] own[j]) by {
        assert(own[j] == x[j - 1]);
    }
    crate::text::lemma_first_at_is(own, p, 1, end);
    assert(own.subrange(1, end) =~= x);
    assert(targets_from(own, end + 1) =~= Seq::empty());
    assert(targets_from(own, 0) =~= link_target(x));
    assert(targets_from(s, n) == if b.len() > 0 && b[0] == '(' {
        targets_from(s, close + 1)
    } else {
        link_target(x) + targets_from(s, close + 1)
    });
    // A bracket that is not closed.
    let open = a + seq!['['] + x;
    assert forall|j: int| 0 <= j < n implies open[j] != '[' by {
        assert(open[j] == a[j]);
    }
    lemma_targets_skip(open, 0, n);
    assert(open[n] == '[');
    assert forall|j: int| n + 1 <= j < open.len() implies !p(#[trigger] open[j]) by {
        assert(open[j] == x[j - n - 1]);
    }
    crate::text::lemma_first_at_is(open, p, n + 1, open.len() as int);
    lemma_targets_shift(a + seq!['['], x, 0);
}

/// Whether a text is a name that can be linked to: letters, digits and
/// underscores, of which the first is no digit, and no white space.
pub open spec fn is_linkable(x: Seq<char>) -> bool {
    &&& x.len() > 0
    &&& letter(x[0]) || x[0] == '_'
    &&& forall|i: int|
        0 <= i < x.len() ==> (letter_or_digit(#[trigger] x[i]) || x[i] == '_') && !white_space(x[i])
}

proof fn lemma_ident_ends(x: Seq<char>)
    requires
        is_linkable(x),
    ensures
        plain_ident(x),
        trimmed(x) == x,
        !blank()(x[0]),
        !blank()(x.last()),
        !only('`')(x[0]),
        !only('`')(x.last()),
        !x.contains(':'),
{
    assert(x[x.len() - 1] == x.last());
    assert(letter_or_digit(x[x.len() - 1]) || x[x.len() - 1] == '_');
    assert(letter_or_digit(x[0]) || x[0] == '_');
    crate::text::trimming_stops_at_what_stays(Seq::empty(), x, Seq::empty(), blank());
    assert(Seq::<char>::empty() + x + Seq::<char>::empty() =~= x);
    if x.contains(':') {
        let k = x.index_of(':');
        assert(letter_or_digit(x[k]) || x[k] == '_');
    }
}

proof fn lemma_head_of_path(x: Seq<char>, y: Seq<char>)
    requires
        is_linkable(x),
    ensures
        path_head(x) == x,
        path_head(x + "::"@ + y) == x,
{
    reveal_strlit("::");
    lemma_ident_ends(x);
    let sep = "::"@;
    assert(sep.len() == 2 && sep[0] == ':' && sep[1] == ':');
    assert forall|j: int| 0 <= j < x.len() implies !#[trigger] occurs_at(x, sep, j) by {
        if occurs_at(x, sep, j) {
            assert(x.subrange(j, j + 2)[0] == x[j]);
            assert(x.contains(x[j]));
        }
    }
    crate::text::lemma_find_from_none(x, sep, 0);
    assert(x.take(x.len() as int) =~= x);
    let w = x + sep + y;
    let n = x.len() as int;
    assert(w.subrange(n, n + 2) =~= sep);
    assert forall|j: int| 0 <= j < n implies !#[trigger] occurs_at(w, sep, j) by {
        if occurs_at(w, sep, j) {
            assert(w.subrange(j, j + 2)[0] == w[j]);
            assert(w[j] == x[j]);
            assert(x.contains(x[j]));
        }
    }
    crate::text::lemma_find_from_is(w, sep, 0, n);
    assert(w.take(n) =~= x);
}

/// Which names brackets link to: a name alone, with white space round it or
/// without, in back ticks or not, and of a path its first name.
pub proof fn names_in_brackets_are_targets(
    a: Seq<char>,
    x: Seq<char>,
    y: Seq<char>,
    b: Seq<char>,
)
    requires
        is_linkable(x),
        forall|i: int| 0 <= i < a.len() ==> white_space(#[trigger] a[i]),
        forall|i: int| 0 <= i < b.len() ==> white_space(#[trigger] b[i]),
        y.len() > 0 ==> !white_space(y.last()) && y.last() != '`',
    ensures
        link_target(a + x + b) == seq![x],
        link_target(a + (seq!['`'] + x + seq!['`']) + b) == seq![x],
        link_target(a + (x + "::"@ + y) + b) == seq![x],
        link_target(a + (seq!['`'] + (x + "::"@ + y) + seq!['`']) + b) == seq![x],
{
    reveal_strlit("::");
    assert("::"@.len() == 2 && "::"@[1] == ':');
    lemma_ident_ends(x);
    lemma_head_of_path(x, y);
    let tick = only('`');
    let none = Seq::<char>::empty();
    let path = x + "::"@ + y;
    assert(path[0] == x[0]);
    assert(!blank()(path.last()) && !tick(path.last())) by {
        if y.len() > 0 {
            assert(path.last() == y.last());
        } else {
            assert(path.last() == ':');
        }
    }
    crate::text::trimming_stops_at_what_stays(a, x, b, blank());
    crate::text::trimming_stops_at_what_stays(none, x, none, tick);
    assert(none + x + none =~= x);
    crate::text::trimming_stops_at_what_stays(a, path, b, blank());
    crate::text::trimming_stops_at_what_stays(none, path, none, tick);
    assert(none + path + none =~= path);
    let t = seq!['`'];
    let quoted = t + x + t;
    assert(quoted[0] == '`' && quoted.last() == '`');
    crate::text::trimming_stops_at_what_stays(a, quoted, b, blank());
    crate::text::trimming_stops_at_what_stays(t, x, t, tick);
    let quoted_path = t + path + t;
    assert(quoted_path[0] == '`' && quoted_path.last() == '`');
    crate::text::trimming_stops_at_what_stays(a, quoted_path, b, blank());
    crate::text::trimming_stops_at_what_stays(t, path, t, tick);
}

/// Brackets link to one name at most, and that is made of letters, digits and
/// underscores, of which the first is no digit. Text without a back tick, a colon
/// or white space links to nothing but itself.
pub proof fn brackets_link_to_names_alone(x: Seq<char>)
    ensures
        link_target(x).len() <= 1,
        link_target(x).len() == 1 ==> ({
            let t = link_target(x)[0];
            &&& t.len() > 0
            &&& letter(t[0]) || t[0] == '_'
            &&& forall|i: int|
                0 <= i < t.len() ==> letter_or_digit(#[trigger] t[i]) || t[i] == '_'
        }),
        (forall|i: int|
            0 <= i < x.len() ==> (#[trigger] x[i]) != '`' && x[i] != ':' && !white_space(x[i])) ==> (
        if x.len() > 0 && (letter(x[0]) || x[0] == '_') && (forall|i: int|
            0 <= i < x.len() ==> letter_or_digit(#[trigger] x[i]) || x[i] == '_') {
            link_target(x) == seq![x]
        } else {
            link_target(x).len() == 0
        }),
{
    if forall|i: int|
        0 <= i < x.len() ==> (#[trigger] x[i]) != '`' && x[i] != ':' && !white_space(x[i]) {
        reveal_strlit("::");
        let sep = "::"@;
        assert(sep.len() == 2 && sep[0] == ':');
        let none = Seq::<char>::empty();
        if x.len() > 0 {
            assert(x[x.len() - 1] == x.last());
            assert(x[0] != '`' && !white_space(x[0]));
            crate::text::trimming_stops_at_what_stays(none, x, none, blank());
            crate::text::trimming_stops_at_what_stays(none, x, none, only('`'));
            assert(none + x + none =~= x);
        } else {
            crate::text::trimming_can_take_everything(x, blank());
            assert(trimmed(x) =~= x);
            crate::text::trimming_can_take_everything(x, only('`'));
            assert(trimmed_by(x, only('`')) =~= x);
        }
        assert forall|j: int| 0 <= j < x.len() implies !#[trigger] occurs_at(x, sep, j) by {
            if occurs_at(x, sep, j) {
                assert(x.subrange(j, j + 2)[0] == x[j]);
            }
        }
        crate::text::lemma_find_from_none(x, sep, 0);
        assert(x.take(x.len() as int) =~= x);
        assert(path_head(x) == x);
    }
}

proof fn lemma_after_links(
    st: DriftView,
    targets: Seq<Seq<char>>,
    file: Seq<char>,
    line: nat,
    changed: Seq<Seq<char>>,
    n: nat,
)
    requires
        n <= targets.len(),
    ensures
        ({
            let r = after_links(st, targets, file, line, changed, n);
            &&& r.words == st.words
            &&& forall|t: Seq<char>| #[trigger]
                r.links.contains(t) <==> st.links.contains(t) || (changed.contains(t)
                    && targets.take(n as int).contains(t))
            &&& forall|f: FindingView| #[trigger]
                r.out.contains(f) <==> st.out.contains(f) || exists|t: Seq<char>|
                    changed.contains(t) && !st.links.contains(t) && targets.take(
                        n as int,
                    ).contains(t) && f == #[trigger] link_finding(file, t, line)
        }),
    decreases n,
{
    if n > 0 {
        let m = (n - 1) as nat;
        lemma_after_links(st, targets, file, line, changed, m);
        let s = after_links(st, targets, file, line, changed, m);
        let r = after_links(st, targets, file, line, changed, n);
        let t0 = targets[n - 1];
        let f0 = link_finding(file, t0, line);
        assert forall|t: Seq<char>| #[trigger]
            targets.take(n as int).contains(t) <==> targets.take(m as int).contains(t) || t == t0 by {
            assert(targets.take(n as int) =~= targets.take(m as int) + seq![t0]);
            lemma_contains_add(targets.take(m as int), seq![t0], t);
            assert(seq![t0][0] == t0);
        }
        if changed.contains(t0) && !s.links.contains(t0) {
            assert forall|t: Seq<char>| #[trigger] r.links.contains(t) <==> s.links.contains(t) || t
                == t0 by {
                assert(r.links =~= s.links + seq![t0]);
                lemma_contains_add(s.links, seq![t0], t);
                assert(seq![t0][0] == t0);
            }
            assert forall|f: FindingView| #[trigger] r.out.contains(f) <==> s.out.contains(f) || f
                == f0 by {
                assert(r.out =~= s.out + seq![f0]);
                lemma_contains_add(s.out, seq![f0], f);
                assert(seq![f0][0] == f0);
            }
        }
        assert forall|f: FindingView| #[trigger]
            r.out.contains(f) <==> st.out.contains(f) || exists|t: Seq<char>|
                changed.contains(t) && !st.links.contains(t) && targets.take(n as int).contains(t)
                    && f == #[trigger] link_finding(file, t, line) by {
            if r.out.contains(f) && !st.out.contains(f) {
                if s.out.contains(f) {
                    let t = choose|t: Seq<char>|
                        changed.contains(t) && !st.links.contains(t) && targets.take(
                            m as int,
                        ).contains(t) && f == #[trigger] link_finding(file, t, line);
                    assert(targets.take(n as int).contains(t));
                    assert(f == link_finding(file, t, line));
                } else {
                    assert(targets.take(n as int).contains(t0));
                    assert(f == link_finding(file, t0, line));
                }
            }
            if exists|t: Seq<char>|
                changed.contains(t) && !st.links.contains(t) && targets.take(n as int).contains(t)
                    && f == #[trigger] link_finding(file, t, line) {
                let t = choose|t: Seq<char>|
                    changed.contains(t) && !st.links.contains(t) && targets.take(
                        n as int,
                    ).contains(t) && f == #[trigger] link_finding(file, t, line);
                if targets.take(m as int).contains(t) {
                    assert(s.out.contains(f));
                } else {
                    assert(t == t0);
                    if s.links.contains(t0) {
                        assert(st.links.contains(t0) || targets.take(m as int).contains(t0));
                    }
                    assert(f == f0);
                }
            }
        }
    } else {
        assert(targets.take(0) =~= Seq::empty());
    }
}

proof fn lemma_after_words(
    st: DriftView,
    tokens: Seq<Seq<char>>,
    file: Seq<char>,
    line: nat,
    changed: Seq<Seq<char>>,
    n: nat,
)
    requires
        n <= tokens.len(),
    ensures
        ({
            let r = after_words(st, tokens, file, line, changed, n);
            &&& r.links == st.links
            &&& forall|t: Seq<char>| #[trigger]
                r.words.contains(t) <==> st.words.contains(t) || (t.len() >= 6 && changed.contains(t)
                    && tokens.take(n as int).contains(t))
            &&& forall|f: FindingView| #[trigger]
                r.out.contains(f) <==> st.out.contains(f) || exists|t: Seq<char>|
                    t.len() >= 6 && changed.contains(t) && !st.words.contains(t) && tokens.take(
                        n as int,
                    ).contains(t) && f == #[trigger] keyword_finding(file, t, line)
        }),
    decreases n,
{
    if n > 0 {
        let m = (n - 1) as nat;
        lemma_after_words(st, tokens, file, line, changed, m);
        let s = after_words(st, tokens, file, line, changed, m);
        let r = after_words(st, tokens, file, line, changed, n);
        let t0 = tokens[n - 1];
        let f0 = keyword_finding(file, t0, line);
        assert forall|t: Seq<char>| #[trigger]
            tokens.take(n as int).contains(t) <==> tokens.take(m as int).contains(t) || t == t0 by {
            assert(tokens.take(n as int) =~= tokens.take(m as int) + seq![t0]);
            lemma_contains_add(tokens.take(m as int), seq![t0], t);
            assert(seq![t0][0] == t0);
        }
        if t0.len() >= 6 && changed.contains(t0) && !s.words.contains(t0) {
            assert forall|t: Seq<char>| #[trigger] r.words.contains(t) <==> s.words.contains(t) || t
                == t0 by {
                assert(r.words =~= s.words + seq![t0]);
                lemma_contains_add(s.words, seq![t0], t);
                assert(seq![t0][0] == t0);
            }
            assert forall|f: FindingView| #[trigger] r.out.contains(f) <==> s.out.contains(f) || f
                == f0 by {
                assert(r.out =~= s.out + seq![f0]);
                lemma_contains_add(s.out, seq![f0], f);
                assert(seq![f0][0] == f0);
            }
        }
        assert forall|f: FindingView| #[trigger]
            r.out.contains(f) <==> st.out.contains(f) || exists|t: Seq<char>|
                t.len() >= 6 && changed.contains(t) && !st.words.contains(t) && tokens.take(
                    n as int,
                ).contains(t) && f == #[trigger] keyword_finding(file, t, line) by {
            if r.out.contains(f) && !st.out.contains(f) {
                if s.out.contains(f) {
                    let t = choose|t: Seq<char>|
                        t.len() >= 6 && changed.contains(t) && !st.words.contains(t) && tokens.take(
                            m as int,
                        ).contains(t) && f == #[trigger] keyword_finding(file, t, line);
                    assert(tokens.take(n as int).contains(t));
                    assert(f == keyword_finding(file, t, line));
                } else {
                    assert(tokens.take(n as int).contains(t0));
                    assert(f == keyword_finding(file, t0, line));
                }
            }
            if exists|t: Seq<char>|
                t.len() >= 6 && changed.contains(t) && !st.words.contains(t) && tokens.take(
                    n as int,
                ).contains(t) && f == #[trigger] keyword_finding(file, t, line) {
                let t = choose|t: Seq<char>|
                    t.len() >= 6 && changed.contains(t) && !st.words.contains(t) && tokens.take(
                        n as int,
                    ).contains(t) && f == #[trigger] keyword_finding(file, t, line);
                if tokens.take(m as int).contains(t) {
                    assert(s.out.contains(f));
                } else {
                    assert(t == t0);
                    if s.words.contains(t0) {
                        assert(st.words.contains(t0) || tokens.take(m as int).contains(t0));
                    }
                    assert(f == f0);
                }
            }
        }
    } else {
        assert(tokens.take(0) =~= Seq::empty());
    }
}

/// Whether a line at or before `n` links to a symbol.
spec fn linked_before(numbered: Seq<(nat, Seq<char>)>, t: Seq<char>, n: int) -> bool {
    exists|i: int| 0 <= i < n && #[trigger] targets_from(numbered[i].1, 0).contains(t)
}

/// Whether a line before `n` names a symbol.
spec fn named_before(numbered: Seq<(nat, Seq<char>)>, t: Seq<char>, n: int) -> bool {
    exists|i: int| 0 <= i < n && #[trigger] mentions(numbered[i].1, t)
}

/// Whether the line at `i` is the first one that links to a symbol.
spec fn first_link(numbered: Seq<(nat, Seq<char>)>, t: Seq<char>, i: int) -> bool {
    targets_from(numbered[i].1, 0).contains(t) && !linked_before(numbered, t, i)
}

/// Whether the line at `i` is the first one that names a symbol.
spec fn first_mention(numbered: Seq<(nat, Seq<char>)>, t: Seq<char>, i: int) -> bool {
    mentions(numbered[i].1, t) && !named_before(numbered, t, i)
}

spec fn is_first_link(
    numbered: Seq<(nat, Seq<char>)>,
    file: Seq<char>,
    changed: Seq<Seq<char>>,
    f: FindingView,
    t: Seq<char>,
    i: int,
) -> bool {
    changed.contains(t) && first_link(numbered, t, i) && f == link_finding(file, t, numbered[i].0)
}

spec fn is_first_mention(
    numbered: Seq<(nat, Seq<char>)>,
    file: Seq<char>,
    changed: Seq<Seq<char>>,
    f: FindingView,
    t: Seq<char>,
    i: int,
) -> bool {
    t.len() >= 6 && changed.contains(t) && first_mention(numbered, t, i) && f == keyword_finding(
        file,
        t,
        numbered[i].0,
    )
}

spec fn is_first(
    numbered: Seq<(nat, Seq<char>)>,
    file: Seq<char>,
    changed: Seq<Seq<char>>,
    f: FindingView,
    t: Seq<char>,
    i: int,
) -> bool {
    is_first_link(numbered, file, changed, f, t, i) || is_first_mention(
        numbered,
        file,
        changed,
        f,
        t,
        i,
    )
}

proof fn lemma_after_lines(
    numbered: Seq<(nat, Seq<char>)>,
    file: Seq<char>,
    changed: Seq<Seq<char>>,
    n: nat,
)
    requires
        n <= numbered.len(),
    ensures
        ({
            let st = after_lines(numbered, file, changed, n);
            &&& forall|t: Seq<char>| #[trigger]
                st.links.contains(t) <==> changed.contains(t) && linked_before(
                    numbered,
                    t,
                    n as int,
                )
            &&& forall|t: Seq<char>| #[trigger]
                st.words.contains(t) <==> t.len() >= 6 && changed.contains(t) && named_before(
                    numbered,
                    t,
                    n as int,
                )
            &&& forall|f: FindingView| #[trigger]
                st.out.contains(f) <==> exists|t: Seq<char>, i: int|
                    0 <= i < n && #[trigger] is_first(numbered, file, changed, f, t, i)
        }),
    decreases n,
{
    if n > 0 {
        let m = (n - 1) as nat;
        lemma_after_lines(numbered, file, changed, m);
        let st = after_lines(numbered, file, changed, m);
        let (line, text) = numbered[m as int];
        let targets = targets_from(text, 0);
        let tokens = pieces(text, word_break());
        let mid = after_links(st, targets, file, line, changed, targets.len());
        let r = after_lines(numbered, file, changed, n);
        lemma_after_links(st, targets, file, line, changed, targets.len());
        lemma_after_words(mid, tokens, file, line, changed, tokens.len());
        assert(targets.take(targets.len() as int) =~= targets);
        assert(tokens.take(tokens.len() as int) =~= tokens);
        assert(r == after_words(mid, tokens, file, line, changed, tokens.len()));
        assert forall|t: Seq<char>| #[trigger] linked_before(numbered, t, n as int)
            <==> linked_before(numbered, t, m as int) || targets.contains(t) by {
            if linked_before(numbered, t, m as int) {
                let i = choose|i: int|
                    0 <= i < m && #[trigger] targets_from(numbered[i].1, 0).contains(t);
                assert(targets_from(numbered[i].1, 0).contains(t));
            }
            if targets.contains(t) {
                assert(targets_from(numbered[m as int].1, 0).contains(t));
            }
        }
        assert forall|t: Seq<char>| #[trigger] named_before(numbered, t, n as int) <==> named_before(
            numbered,
            t,
            m as int,
        ) || mentions(text, t) by {
            if named_before(numbered, t, m as int) {
                let i = choose|i: int| 0 <= i < m && #[trigger] mentions(numbered[i].1, t);
                assert(mentions(numbered[i].1, t));
            }
            if mentions(text, t) {
                assert(mentions(numbered[m as int].1, t));
            }
        }
        assert forall|f: FindingView| #[trigger]
            r.out.contains(f) <==> exists|t: Seq<char>, i: int|
                0 <= i < n && #[trigger] is_first(numbered, file, changed, f, t, i) by {
            if r.out.contains(f) {
                if st.out.contains(f) {
                    let (t, i) = choose|t: Seq<char>, i: int|
                        0 <= i < m && #[trigger] is_first(numbered, file, changed, f, t, i);
                    assert(is_first(numbered, file, changed, f, t, i));
                } else if mid.out.contains(f) {
                    let t = choose|t: Seq<char>|
                        changed.contains(t) && !st.links.contains(t) && targets.contains(t) && f
                            == #[trigger] link_finding(file, t, line);
                    assert(is_first_link(numbered, file, changed, f, t, m as int));
                    assert(is_first(numbered, file, changed, f, t, m as int));
                } else {
                    let t = choose|t: Seq<char>|
                        t.len() >= 6 && changed.contains(t) && !mid.words.contains(t)
                            && tokens.contains(t) && f == #[trigger] keyword_finding(file, t, line);
                    assert(mentions(text, t));
                    assert(is_first_mention(numbered, file, changed, f, t, m as int));
                    assert(is_first(numbered, file, changed, f, t, m as int));
                }
            }
            if exists|t: Seq<char>, i: int|
                0 <= i < n && #[trigger] is_first(numbered, file, changed, f, t, i) {
                let (t, i) = choose|t: Seq<char>, i: int|
                    0 <= i < n && #[trigger] is_first(numbered, file, changed, f, t, i);
                if i < m {
                    assert(is_first(numbered, file, changed, f, t, i));
                    assert(st.out.contains(f));
                } else if is_first_link(numbered, file, changed, f, t, i) {
                    assert(!st.links.contains(t));
                    assert(f == link_finding(file, t, line));
                    assert(mid.out.contains(f));
                } else {
                    assert(tokens.contains(t));
                    assert(!mid.words.contains(t));
                    assert(f == keyword_finding(file, t, line));
                }
            }
        }
    }
}

/// Whether the line at `i` is the first one whose brackets link to a symbol.
pub open spec fn links_first_at(
    numbered: Seq<(nat, Seq<char>)>,
    t: Seq<char>,
    i: int,
) -> bool {
    &&& 0 <= i < numbered.len()
    &&& targets_from(numbered[i].1, 0).contains(t)
    &&& forall|j: int| 0 <= j < i ==> !(#[trigger] targets_from(numbered[j].1, 0).contains(t))
}

/// Whether the line at `i` is the first one in which a symbol stands as a whole
/// word.
pub open spec fn names_first_at(
    numbered: Seq<(nat, Seq<char>)>,
    t: Seq<char>,
    i: int,
) -> bool {
    &&& 0 <= i < numbered.len()
    &&& is_word(t)
    &&& exists|a: int| #[trigger] stands_alone_at(numbered[i].1, t, a)
    &&& forall|j: int, a: int| 0 <= j < i ==> !#[trigger] stands_alone_at(numbered[j].1, t, a)
}

proof fn lemma_first_places(numbered: Seq<(nat, Seq<char>)>, t: Seq<char>, i: int)
    requires
        0 <= i < numbered.len(),
    ensures
        first_link(numbered, t, i) <==> links_first_at(numbered, t, i),
        first_mention(numbered, t, i) <==> names_first_at(numbered, t, i),
{
    assert forall|j: int| 0 <= j < numbered.len() implies (#[trigger] mentions(numbered[j].1, t)
        <==> is_word(t) && exists|a: int| #[trigger] stands_alone_at(numbered[j].1, t, a)) by {
        mentions_are_whole_words(numbered[j].1, t);
    }
    if first_link(numbered, t, i) {
        assert forall|j: int| 0 <= j < i implies !(#[trigger] targets_from(
            numbered[j].1,
            0,
        ).contains(t)) by {}
    }
    assert(mentions(numbered[i].1, t) <==> is_word(t) && exists|a: int| #[trigger]
        stands_alone_at(numbered[i].1, t, a));
    if first_mention(numbered, t, i) {
        assert forall|j: int, a: int| 0 <= j < i implies !#[trigger] stands_alone_at(
            numbered[j].1,
            t,
            a,
        ) by {
            if stands_alone_at(numbered[j].1, t, a) {
                assert(mentions(numbered[j].1, t));
            }
        }
    }
    if names_first_at(numbered, t, i) {
        if named_before(numbered, t, i) {
            let j = choose|j: int| 0 <= j < i && #[trigger] mentions(numbered[j].1, t);
            let a = choose|a: int| #[trigger] stands_alone_at(numbered[j].1, t, a);
            assert(stands_alone_at(numbered[j].1, t, a));
        }
    }
}

/// The findings of a file: each changed symbol that some line links to is
/// reported as a link, at the first such line; each changed symbol of six
/// characters or more that no line links to, and that stands somewhere as a whole
/// word, is reported as a mention, at the first such line; and nothing else is.
pub proof fn documents_report_first_links_and_mentions(
    numbered: Seq<(nat, Seq<char>)>,
    file: Seq<char>,
    changed: Seq<Seq<char>>,
    f: FindingView,
)
    ensures
        drift_findings(after_lines(numbered, file, changed, numbered.len())).contains(f) <==> (
        exists|t: Seq<char>, i: int| #[trigger]
            links_first_at(numbered, t, i) && changed.contains(t) && f == link_finding(
                file,
                t,
                numbered[i].0,
            )) || (exists|t: Seq<char>, i: int| #[trigger]
            names_first_at(numbered, t, i) && changed.contains(t) && t.len() >= 6 && (forall|j: int|
                0 <= j < numbered.len() ==> !(#[trigger] targets_from(numbered[j].1, 0).contains(t)))
                && f == keyword_finding(file, t, numbered[i].0)),
{
    let n = numbered.len();
    let st = after_lines(numbered, file, changed, n);
    lemma_after_lines(numbered, file, changed, n);
    lemma_filter_member(st.out, unlinked(st.links), f);
    let r = drift_findings(st);
    if r.contains(f) {
        let (t, i) = choose|t: Seq<char>, i: int|
            0 <= i < n && #[trigger] is_first(numbered, file, changed, f, t, i);
        lemma_first_places(numbered, t, i);
        if is_first_link(numbered, file, changed, f, t, i) {
            assert(links_first_at(numbered, t, i));
        } else {
            assert(names_first_at(numbered, t, i));
            assert(!st.links.contains(t));
            assert forall|j: int| 0 <= j < numbered.len() implies !(#[trigger] targets_from(
                numbered[j].1,
                0,
            ).contains(t)) by {}
        }
    }
    if exists|t: Seq<char>, i: int| #[trigger]
        links_first_at(numbered, t, i) && changed.contains(t) && f == link_finding(
            file,
            t,
            numbered[i].0,
        ) {
        let (t, i) = choose|t: Seq<char>, i: int| #[trigger]
            links_first_at(numbered, t, i) && changed.contains(t) && f == link_finding(
                file,
                t,
                numbered[i].0,
            );
        lemma_first_places(numbered, t, i);
        assert(is_first(numbered, file, changed, f, t, i));
        assert(st.out.contains(f));
    }
    if exists|t: Seq<char>, i: int| #[trigger]
        names_first_at(numbered, t, i) && changed.contains(t) && t.len() >= 6 && (forall|j: int|
            0 <= j < numbered.len() ==> !(#[trigger] targets_from(numbered[j].1, 0).contains(t)))
            && f == keyword_finding(file, t, numbered[i].0) {
        let (t, i) = choose|t: Seq<char>, i: int| #[trigger]
            names_first_at(numbered, t, i) && changed.contains(t) && t.len() >= 6 && (forall|j: int|
                0 <= j < numbered.len() ==> !(#[trigger] targets_from(numbered[j].1, 0).contains(t)))
                && f == keyword_finding(file, t, numbered[i].0);
        lemma_first_places(numbered, t, i);
        assert(is_first_mention(numbered, file, changed, f, t, i));
        assert(is_first(numbered, file, changed, f, t, i));
        assert(st.out.contains(f));
        assert(!st.links.contains(t));
    }
}

/// A link is a likely finding, a mention a weak one; both tell of the symbol, the
/// file and the line.
pub proof fn links_weigh_more_than_mentions(file: Seq<char>, t: Seq<char>, line: nat)
    ensures
        link_finding(file, t, line).tier == Tier::Likely,
        link_finding(file, t, line).confidence == 90,
        link_finding(file, t, line).kind == (KindView::DocDriftLink {
            symbol: t,
            doc: LocationView { file, symbol: t },
            line,
        }),
        keyword_finding(file, t, line).tier == Tier::Possible,
        keyword_finding(file, t, line).confidence == 40,
        keyword_finding(file, t, line).kind == (KindView::DocDriftKeyword {
            symbol: t,
            doc: LocationView { file, symbol: t },
            line,
        }),
{
}

/// Of a Rust file the lines of doc comments are read, with their own numbers: a
/// line is one exactly where `///` or `//!` stands behind its leading white
/// space, and its text is what follows, without one space.
pub proof fn doc_comments_are_read_line_by_line(a: Seq<char>, b: Seq<char>)
    requires
        forall|i: int| 0 <= i < a.len() ==> white_space(#[trigger] a[i]),
        b.len() > 0 ==> !white_space(b[0]),
    ensures
        begins(b, "///"@) || begins(b, "//!"@) ==> doc_text(a + b) == Some(
            if b.len() > 3 && b[3] == ' ' {
                b.skip(4)
            } else {
                b.skip(3)
            },
        ),
        !begins(b, "///"@) && !begins(b, "//!"@) ==> doc_text(a + b) is None,
{
    reveal_strlit("///");
    reveal_strlit("//!");
    reveal_strlit(" ");
    assert("///"@.len() == 3 && "//!"@.len() == 3 && " "@.len() == 1 && " "@[0] == ' ');
    crate::text::start_trimming_stops_at_what_stays(a, b);
    if begins(b, "///"@) || begins(b, "//!"@) {
        let body = b.skip(3);
        if b.len() > 3 && b[3] == ' ' {
            assert(body.subrange(0, 1) =~= " "@);
            assert(begins(body, " "@));
            assert(body.skip(1) =~= b.skip(4));
        } else {
            if begins(body, " "@) {
                assert(body.subrange(0, 1)[0] == body[0]);
                assert(body[0] == b[3]);
            }
        }
    }
}

/// The doc comment lines of a file are all of its lines that are one, in order,
/// each with its number, counted from 1.
pub proof fn doc_lines_keep_their_numbers(l: Seq<Seq<char>>, n: nat, x: (nat, Seq<char>))
    requires
        n <= l.len(),
        n < u32::MAX,
    ensures
        doc_lines(l, n).contains(x) <==> exists|i: int|
            0 <= i < n && doc_text(#[trigger] l[i]) == Some(x.1) && x.0 == i + 1,
        forall|i: int, j: int|
            #![trigger doc_lines(l, n)[i], doc_lines(l, n)[j]]
            0 <= i < j < doc_lines(l, n).len() ==> doc_lines(l, n)[i].0 < doc_lines(l, n)[j].0,
        forall|i: int| 0 <= i < doc_lines(l, n).len() ==> (#[trigger] doc_lines(l, n)[i]).0 <= n,
    decreases n,
{
    if n > 0 {
        let m = (n - 1) as nat;
        doc_lines_keep_their_numbers(l, m, x);
        let rest = doc_lines(l, m);
        if let Some(t) = doc_text(l[m as int]) {
            let y = (n, t);
            assert(doc_lines(l, n) =~= rest + seq![y]);
            lemma_contains_add(rest, seq![y], x);
            assert(seq![y][0] == y);
            assert(seq![y].contains(x) <==> x == y);
        }
    }
}

/// A markdown file is read line by line, numbered from 1.
pub proof fn markdown_lines_are_numbered_from_one(src: Seq<char>, i: int)
    requires
        0 <= i < lines_of(src).len(),
        i < u32::MAX,
    ensures
        numbered_lines(src).len() == lines_of(src).len(),
        numbered_lines(src)[i] == ((i + 1) as nat, lines_of(src)[i]),
{
}

/// Every document and every source file brings its own findings, and nothing
/// else does. Without a changed symbol there are none.
pub proof fn every_document_is_read(
    docs: Seq<FileView>,
    sources: Seq<FileView>,
    changed: Seq<Seq<char>>,
    f: FindingView,
)
    ensures
        doc_drift(docs, sources, changed).contains(f) <==> changed.len() > 0 && ((exists|i: int|
            0 <= i < docs.len() && markdown_drift(#[trigger] docs[i], changed).contains(f)) || (
        exists|i: int|
            0 <= i < sources.len() && comment_drift(#[trigger] sources[i], changed).contains(f))),
{
    lemma_all_markdown(docs, changed, docs.len(), f);
    lemma_all_comments(sources, changed, sources.len(), f);
    lemma_contains_add(
        all_markdown(docs, changed, docs.len()),
        all_comments(sources, changed, sources.len()),
        f,
    );
}

proof fn lemma_all_markdown(
    files: Seq<FileView>,
    changed: Seq<Seq<char>>,
    n: nat,
    f: FindingView,
)
    requires
        n <= files.len(),
    ensures
        all_markdown(files, changed, n).contains(f) <==> exists|i: int|
            0 <= i < n && markdown_drift(#[trigger] files[i], changed).contains(f),
    decreases n,
{
    if n > 0 {
        let m = (n - 1) as nat;
        lemma_all_markdown(files, changed, m, f);
        lemma_contains_add(
            all_markdown(files, changed, m),
            markdown_drift(files[n - 1], changed),
            f,
        );
    }
}

proof fn lemma_all_comments(
    files: Seq<FileView>,
    changed: Seq<Seq<char>>,
    n: nat,
    f: FindingView,
)
    requires
        n <= files.len(),
    ensures
        all_comments(files, changed, n).contains(f) <==> exists|i: int|
            0 <= i < n && comment_drift(#[trigger] files[i], changed).contains(f),
    decreases n,
{
    if n > 0 {
        let m = (n - 1) as nat;
        lemma_all_comments(files, changed, m, f);
        lemma_contains_add(all_comments(files, changed, m), comment_drift(files[n - 1], changed), f);
    }
}

/// Findings on documentation are of low severity, and their evidence names the
/// symbol, the file and the line.
pub proof fn drift_evidence_names_symbol_and_place(file: Seq<char>, t: Seq<char>, line: nat)
    ensures
        link_finding(file, t, line).severity is Low,
        keyword_finding(file, t, line).severity is Low,
        crate::text::holds(link_finding(file, t, line).evidence, t),
        crate::text::holds(link_finding(file, t, line).evidence, file + ":"@ + decimal(line)),
        crate::text::holds(keyword_finding(file, t, line).evidence, t),
        crate::text::holds(keyword_finding(file, t, line).evidence, file + ":"@ + decimal(line)),
{
    broadcast use crate::text::group_holds;

    let place = file + ":"@ + decimal(line);
    let a = "`"@ + t + "` referenced via intra-doc link in "@;
    let b = "`"@ + t + "` mentioned in "@;
    assert(link_finding(file, t, line).evidence =~= a + place);
    assert(keyword_finding(file, t, line).evidence =~= b + place
        + " (plain keyword, not an intra-doc link)"@);
}

/// Documents are read one by one, in order, the markdown files before the doc
/// comments.
pub proof fn documents_are_read_in_order(
    a: Seq<FileView>,
    b: Seq<FileView>,
    docs: Seq<FileView>,
    sources: Seq<FileView>,
    file: FileView,
    changed: Seq<Seq<char>>,
)
    requires
        changed.len() > 0,
    ensures
        ({
            let none = Seq::<FileView>::empty();
            &&& doc_drift(a + b, none, changed) == doc_drift(a, none, changed) + doc_drift(
                b,
                none,
                changed,
            )
            &&& doc_drift(none, a + b, changed) == doc_drift(none, a, changed) + doc_drift(
                none,
                b,
                changed,
            )
            &&& doc_drift(seq![file], none, changed) == markdown_drift(file, changed)
            &&& doc_drift(none, seq![file], changed) == comment_drift(file, changed)
            &&& doc_drift(docs, sources, changed) == doc_drift(docs, none, changed) + doc_drift(
                none,
                sources,
                changed,
            )
        }),
{
    let none = Seq::<FileView>::empty();
    let no = Seq::<FindingView>::empty();
    lemma_markdown_behind(a, b, changed, b.len());
    lemma_comments_behind(a, b, changed, b.len());
    reveal_with_fuel(all_markdown, 2);
    reveal_with_fuel(all_comments, 2);
    assert(all_markdown(none, changed, 0) =~= no);
    assert(all_comments(none, changed, 0) =~= no);
    assert(doc_drift(a + b, none, changed) =~= doc_drift(a, none, changed) + doc_drift(
        b,
        none,
        changed,
    ));
    assert(doc_drift(none, a + b, changed) =~= doc_drift(none, a, changed) + doc_drift(
        none,
        b,
        changed,
    ));
    assert(doc_drift(seq![file], none, changed) =~= markdown_drift(file, changed));
    assert(doc_drift(none, seq![file], changed) =~= comment_drift(file, changed));
    assert(doc_drift(docs, sources, changed) =~= doc_drift(docs, none, changed) + doc_drift(
        none,
        sources,
        changed,
    ));
}

proof fn lemma_markdown_behind(
    a: Seq<FileView>,
    b: Seq<FileView>,
    changed: Seq<Seq<char>>,
    n: nat,
)
    requires
        n <= b.len(),
    ensures
        all_markdown(a + b, changed, a.len() + n) == all_markdown(a, changed, a.len())
            + all_markdown(b, changed, n),
    decreases n,
{
    let x = all_markdown(a, changed, a.len());
    if n > 0 {
        lemma_markdown_behind(a, b, changed, (n - 1) as nat);
        assert((a + b)[a.len() + n - 1] == b[n - 1]);
        assert(all_markdown(a + b, changed, a.len() + n) =~= x + all_markdown(b, changed, n));
    } else {
        lemma_markdown_prefix(a, b, changed, a.len());
        assert(x + all_markdown(b, changed, 0) =~= x);
    }
}

proof fn lemma_markdown_prefix(
    a: Seq<FileView>,
    b: Seq<FileView>,
    changed: Seq<Seq<char>>,
    n: nat,
)
    requires
        n <= a.len(),
    ensures
        all_markdown(a + b, changed, n) == all_markdown(a, changed, n),
    decreases n,
{
    if n > 0 {
        lemma_markdown_prefix(a, b, changed, (n - 1) as nat);
        assert((a + b)[n - 1] == a[n - 1]);
    }
}

proof fn lemma_comments_behind(
    a: Seq<FileView>,
    b: Seq<FileView>,
    changed: Seq<Seq<char>>,
    n: nat,
)
    requires
        n <= b.len(),
    ensures
        all_comments(a + b, changed, a.len() + n) == all_comments(a, changed, a.len())
            + all_comments(b, changed, n),
    decreases n,
{
    let x = all_comments(a, changed, a.len());
    if n > 0 {
        lemma_comments_behind(a, b, changed, (n - 1) as nat);
        assert((a + b)[a.len() + n - 1] == b[n - 1]);
        assert(all_comments(a + b, changed, a.len() + n) =~= x + all_comments(b, changed, n));
    } else {
        lemma_comments_prefix(a, b, changed, a.len());
        assert(x + all_comments(b, changed, 0) =~= x);
    }
}

proof fn lemma_comments_prefix(
    a: Seq<FileView>,
    b: Seq<FileView>,
    changed: Seq<Seq<char>>,
    n: nat,
)
    requires
        n <= a.len(),
    ensures
        all_comments(a + b, changed, n) == all_comments(a, changed, n),
    decreases n,
{
    if n > 0 {
        lemma_comments_prefix(a, b, changed, (n - 1) as nat);
        assert((a + b)[n - 1] == a[n - 1]);
    }
}

/// The line of a finding on documentation.
pub open spec fn drift_line(f: FindingView) -> nat {
    match f.kind {
        KindView::DocDriftLink { line, .. } => line,
        KindView::DocDriftKeyword { line, .. } => line,
        _ => 0,
    }
}

/// Whether findings stand in the order of their lines.
pub open spec fn by_line(s: Seq<FindingView>) -> bool {
    forall|i: int, j: int|
        #![trigger s[i], s[j]]
        0 <= i < j < s.len() ==> drift_line(s[i]) <= drift_line(s[j])
}

/// Whether a scan has found nothing twice and remembers all that it has found,
/// none of it behind line `top`.
spec fn sound(st: DriftView, top: nat) -> bool {
    &&& st.out.no_duplicates()
    &&& by_line(st.out)
    &&& forall|i: int|
        0 <= i < st.out.len() ==> remembered(st.links, st.words, #[trigger] st.out[i])
            && drift_line(st.out[i]) <= top
}

spec fn remembered(links: Seq<Seq<char>>, words: Seq<Seq<char>>, f: FindingView) -> bool {
    match f.kind {
        KindView::DocDriftLink { symbol, .. } => links.contains(symbol),
        KindView::DocDriftKeyword { symbol, .. } => words.contains(symbol),
        _ => false,
    }
}

proof fn lemma_sound_push(
    st: DriftView,
    f: FindingView,
    links: Seq<Seq<char>>,
    words: Seq<Seq<char>>,
    line: nat,
)
    requires
        sound(st, line),
        drift_line(f) == line,
        !remembered(st.links, st.words, f),
        remembered(links, words, f),
        forall|t: Seq<char>| #[trigger] st.links.contains(t) ==> links.contains(t),
        forall|t: Seq<char>| #[trigger] st.words.contains(t) ==> words.contains(t),
    ensures
        sound(DriftView { out: st.out.push(f), links, words }, line),
{
    let out = st.out.push(f);
    assert forall|i: int, j: int| 0 <= i < out.len() && 0 <= j < out.len() && i != j implies out[i]
        != out[j] by {
        if i < st.out.len() && j < st.out.len() {
            assert(st.out[i] != st.out[j]);
        } else if i < st.out.len() {
            assert(remembered(st.links, st.words, st.out[i]));
        } else {
            assert(remembered(st.links, st.words, st.out[j]));
        }
    }
    assert forall|i: int, j: int| #![trigger out[i], out[j]] 0 <= i < j < out.len() implies
        drift_line(out[i]) <= drift_line(out[j]) by {
        if j < st.out.len() {
            assert(drift_line(st.out[i]) <= drift_line(st.out[j]));
        } else {
            assert(remembered(st.links, st.words, st.out[i]));
        }
    }
    assert forall|i: int| 0 <= i < out.len() implies remembered(links, words, #[trigger] out[i])
        && drift_line(out[i]) <= line by {
        if i < st.out.len() {
            assert(remembered(st.links, st.words, st.out[i]));
        }
    }
}

proof fn lemma_push_contains(s: Seq<Seq<char>>, t: Seq<char>)
    ensures
        s.push(t).contains(t),
        forall|x: Seq<char>| #[trigger] s.contains(x) ==> s.push(t).contains(x),
{
    assert(s.push(t)[s.len() as int] == t);
    assert forall|x: Seq<char>| #[trigger] s.contains(x) implies s.push(t).contains(x) by {
        let i = s.index_of(x);
        assert(s.push(t)[i] == x);
    }
}

proof fn lemma_sound_links(
    st: DriftView,
    targets: Seq<Seq<char>>,
    file: Seq<char>,
    line: nat,
    changed: Seq<Seq<char>>,
    n: nat,
)
    requires
        sound(st, line),
    ensures
        sound(after_links(st, targets, file, line, changed, n), line),
    decreases n,
{
    if n > 0 {
        lemma_sound_links(st, targets, file, line, changed, (n - 1) as nat);
        let s = after_links(st, targets, file, line, changed, (n - 1) as nat);
        let t = targets[n - 1];
        if changed.contains(t) && !s.links.contains(t) {
            lemma_push_contains(s.links, t);
            lemma_sound_push(s, link_finding(file, t, line), s.links.push(t), s.words, line);
        }
    }
}

proof fn lemma_sound_words(
    st: DriftView,
    tokens: Seq<Seq<char>>,
    file: Seq<char>,
    line: nat,
    changed: Seq<Seq<char>>,
    n: nat,
)
    requires
        sound(st, line),
    ensures
        sound(after_words(st, tokens, file, line, changed, n), line),
    decreases n,
{
    if n > 0 {
        lemma_sound_words(st, tokens, file, line, changed, (n - 1) as nat);
        let s = after_words(st, tokens, file, line, changed, (n - 1) as nat);
        let t = tokens[n - 1];
        if t.len() >= 6 && changed.contains(t) && !s.words.contains(t) {
            lemma_push_contains(s.words, t);
            lemma_sound_push(s, keyword_finding(file, t, line), s.links, s.words.push(t), line);
        }
    }
}

proof fn lemma_sound_lines(
    numbered: Seq<(nat, Seq<char>)>,
    file: Seq<char>,
    changed: Seq<Seq<char>>,
    n: nat,
)
    requires
        0 < n <= numbered.len(),
        forall|i: int, j: int|
            #![trigger numbered[i], numbered[j]]
            0 <= i < j < numbered.len() ==> numbered[i].0 <= numbered[j].0,
    ensures
        sound(after_lines(numbered, file, changed, n), numbered[n - 1].0),
    decreases n,
{
    let m = (n - 1) as nat;
    let st = after_lines(numbered, file, changed, m);
    let line = numbered[n - 1].0;
    let text = numbered[n - 1].1;
    if m > 0 {
        lemma_sound_lines(numbered, file, changed, m);
        assert(numbered[m - 1].0 <= line);
        assert forall|i: int| 0 <= i < st.out.len() implies remembered(
            st.links,
            st.words,
            #[trigger] st.out[i],
        ) && drift_line(st.out[i]) <= line by {}
    } else {
        assert(st.out =~= Seq::empty());
    }
    assert(sound(st, line));
    let targets = targets_from(text, 0);
    let tokens = pieces(text, word_break());
    lemma_sound_links(st, targets, file, line, changed, targets.len());
    let linked = after_links(st, targets, file, line, changed, targets.len());
    lemma_sound_words(linked, tokens, file, line, changed, tokens.len());
}

proof fn lemma_filter_by_line(s: Seq<FindingView>, p: spec_fn(FindingView) -> bool)
    requires
        by_line(s),
    ensures
        by_line(s.filter(p)),
    decreases s.len(),
{
    reveal(Seq::filter);
    if s.len() > 0 {
        let head = s.drop_last();
        assert(by_line(head)) by {
            assert forall|i: int, j: int|
                #![trigger head[i], head[j]]
                0 <= i < j < head.len() implies drift_line(head[i]) <= drift_line(head[j]) by {
                assert(drift_line(s[i]) <= drift_line(s[j]));
            }
        }
        lemma_filter_by_line(head, p);
        let kept = head.filter(p);
        let r = s.filter(p);
        if p(s.last()) {
            assert forall|i: int, j: int| #![trigger r[i], r[j]] 0 <= i < j < r.len() implies
                drift_line(r[i]) <= drift_line(r[j]) by {
                if j < kept.len() {
                    assert(drift_line(kept[i]) <= drift_line(kept[j]));
                } else {
                    lemma_filter_member(head, p, kept[i]);
                    assert(kept.contains(kept[i]));
                    let k = head.index_of(kept[i]);
                    assert(drift_line(s[k]) <= drift_line(s[s.len() - 1]));
                }
            }
        }
    }
}

/// The findings of a file stand in the order of their lines, and none occurs
/// twice, however often a line links to a symbol or names it.
pub proof fn documents_report_in_order_and_once(
    numbered: Seq<(nat, Seq<char>)>,
    file: Seq<char>,
    changed: Seq<Seq<char>>,
)
    requires
        forall|i: int, j: int|
            #![trigger numbered[i], numbered[j]]
            0 <= i < j < numbered.len() ==> numbered[i].0 <= numbered[j].0,
    ensures
        drift_findings(after_lines(numbered, file, changed, numbered.len())).no_duplicates(),
        by_line(drift_findings(after_lines(numbered, file, changed, numbered.len()))),
{
    let n = numbered.len();
    let st = after_lines(numbered, file, changed, n);
    if n > 0 {
        lemma_sound_lines(numbered, file, changed, n);
    } else {
        assert(st.out =~= Seq::empty());
    }
    crate::text::lemma_filter_distinct(st.out, unlinked(st.links));
    lemma_filter_by_line(st.out, unlinked(st.links));
}

} // verus!
