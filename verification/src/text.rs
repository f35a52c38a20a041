//! Text primitives: every function here works on sequences of characters and
//! says exactly which sequence comes out.
use vstd::prelude::*;
use vstd::string::*;

verus! {

/// Whether a character has the Unicode property `White_Space`: the controls
/// from tab to carriage return, the spaces, and the line and paragraph breaks.
pub open spec fn white_space(c: char) -> bool {
    let n = c as u32;
    ||| 0x9 <= n <= 0xd
    ||| n == 0x20
    ||| n == 0x85
    ||| n == 0xa0
    ||| n == 0x1680
    ||| 0x2000 <= n <= 0x200a
    ||| n == 0x2028
    ||| n == 0x2029
    ||| n == 0x202f
    ||| n == 0x205f
    ||| n == 0x3000
}

/// `char::is_whitespace` reports the Unicode property `White_Space`, which the
/// contract spells out.
pub assume_specification[ char::is_whitespace ](c: char) -> (r: bool)
    ensures
        r == white_space(c),
;

/// Whether a character is an ASCII letter.
pub open spec fn ascii_letter(c: char) -> bool {
    ('a' <= c && c <= 'z') || ('A' <= c && c <= 'Z')
}

/// Whether a character is an ASCII digit.
pub open spec fn ascii_digit(c: char) -> bool {
    '0' <= c && c <= '9'
}

/// The `Alphabetic` or `Numeric` properties of a character, as
/// `char::is_alphanumeric` reports them.
pub uninterp spec fn alphanumeric(c: char) -> bool;

/// `char::is_alphanumeric` reports whether a character is alphabetic or
/// numeric. The contract names that property; of the ASCII characters it is the
/// letters and the digits that have it.
pub assume_specification[ char::is_alphanumeric ](c: char) -> (r: bool)
    ensures
        r == alphanumeric(c),
        (c as u32) < 128 ==> r == (ascii_letter(c) || ascii_digit(c)),
;

/// The `Alphabetic` property of a character, as `char::is_alphabetic` reports
/// it.
pub uninterp spec fn alphabetic(c: char) -> bool;

/// `char::is_alphabetic` reports whether a character is alphabetic. The
/// contract names that property; of the ASCII characters it is the letters that
/// have it.
pub assume_specification[ char::is_alphabetic ](c: char) -> (r: bool)
    ensures
        r == alphabetic(c),
        (c as u32) < 128 ==> r == ascii_letter(c),
;

/// Whether a character is a letter or a digit.
pub open spec fn letter_or_digit(c: char) -> bool {
    if (c as u32) < 128 {
        ascii_letter(c) || ascii_digit(c)
    } else {
        alphanumeric(c)
    }
}

/// Whether a character is a letter.
pub open spec fn letter(c: char) -> bool {
    if (c as u32) < 128 {
        ascii_letter(c)
    } else {
        alphabetic(c)
    }
}

/// The lower-case form of a text, as `str::to_lowercase` gives it.
pub uninterp spec fn lower_case(s: Seq<char>) -> Seq<char>;

/// `c` in lower case where it is an ASCII letter.
pub open spec fn ascii_lower(c: char) -> char {
    if 'A' <= c && c <= 'Z' {
        ((c as u32) + 32) as char
    } else {
        c
    }
}

/// Whether all characters of a text are ASCII.
pub open spec fn is_ascii_text(s: Seq<char>) -> bool {
    forall|i: int| 0 <= i < s.len() ==> (#[trigger] s[i] as u32) < 128
}

/// `str::to_lowercase` maps a text to its Unicode lower-case form. The contract
/// names that form; of an ASCII text it is the text with each letter `A` to `Z`
/// made `a` to `z`.
pub assume_specification[ str::to_lowercase ](s: &str) -> (r: String)
    ensures
        r@ == lower_case(s@),
        is_ascii_text(s@) ==> r@ == s@.map_values(|c: char| ascii_lower(c)),
;

/// A text in lower case: letter by letter where it is ASCII.
pub open spec fn lowered(s: Seq<char>) -> Seq<char> {
    if is_ascii_text(s) {
        s.map_values(|c: char| ascii_lower(c))
    } else {
        lower_case(s)
    }
}

/// A text in lower case.
pub fn to_lower(s: &str) -> (r: String)
    ensures
        r@ == lowered(s@),
{
    s.to_lowercase()
}

/// `String::push` appends one character.
pub assume_specification[ String::push ](s: &mut String, c: char)
    ensures
        final(s)@ == old(s)@.push(c),
;

/// A sequence of texts as a sequence of character sequences.
pub open spec fn texts(v: Seq<String>) -> Seq<Seq<char>> {
    v.map_values(|s: String| s@)
}

/// The characters of a text.
pub fn chars_of(s: &str) -> (r: Vec<char>)
    ensures
        r@ == s@,
{
    let mut v: Vec<char> = Vec::new();
    for c in it: s.chars()
        invariant
            v@ == it.seq().take(it.index() as int),
            it.seq() == s@,
    {
        v.push(c);
    }
    v
}

/// The text made of the characters `v[from..to]`.
pub fn string_range(v: &Vec<char>, from: usize, to: usize) -> (r: String)
    requires
        from <= to <= v@.len(),
    ensures
        r@ == v@.subrange(from as int, to as int),
{
    let mut s = String::new();
    let mut i: usize = from;
    while i < to
        invariant
            from <= i <= to <= v@.len(),
            s@ == v@.subrange(from as int, i as int),
        decreases to - i,
    {
        s.push(v[i]);
        i = i + 1;
    }
    s
}

/// The text made of all characters of `v`.
pub fn string_of(v: &Vec<char>) -> (r: String)
    ensures
        r@ == v@,
{
    let r = string_range(v, 0, v.len());
    proof {
        assert(v@.subrange(0, v@.len() as int) =~= v@);
    }
    r
}

/// Whether two texts hold the same characters.
pub fn same(a: &str, b: &str) -> (r: bool)
    ensures
        r == (a@ == b@),
{
    a.to_owned() == b.to_owned()
}

/// Number of characters of `s`, wide enough that sums of lengths cannot wrap.
pub fn chars_in(s: &str) -> (r: u128)
    ensures
        r == s@.len(),
        r <= usize::MAX,
{
    s.unicode_len() as u128
}

// ---------------------------------------------------------------------------
// Searching
// ---------------------------------------------------------------------------

/// Whether `needle` stands in `s` at position `at`.
pub open spec fn occurs_at(s: Seq<char>, needle: Seq<char>, at: int) -> bool {
    0 <= at && at + needle.len() <= s.len() && s.subrange(at, at + needle.len()) == needle
}

/// Whether `needle` stands anywhere in `s`.
pub open spec fn occurs(s: Seq<char>, needle: Seq<char>) -> bool {
    exists|at: int| occurs_at(s, needle, at)
}

/// Whether `s` begins with `prefix`.
pub open spec fn begins(s: Seq<char>, prefix: Seq<char>) -> bool {
    occurs_at(s, prefix, 0)
}

/// Whether `needle` stands in `v` at position `at`.
pub fn matches_at(v: &Vec<char>, needle: &Vec<char>, at: usize) -> (r: bool)
    requires
        at <= v@.len(),
    ensures
        r == occurs_at(v@, needle@, at as int),
{
    if needle.len() > v.len() - at {
        return false;
    }
    let mut i: usize = 0;
    while i < needle.len()
        invariant
            i <= needle@.len(),
            at + needle@.len() <= v.len(),
            forall|j: int| 0 <= j < i ==> v@[at + j] == needle@[j],
        decreases needle@.len() - i,
    {
        if v[at + i] != needle[i] {
            proof {
                assert(v@.subrange(at as int, at + needle@.len())[i as int] != needle@[i as int]);
            }
            return false;
        }
        i = i + 1;
    }
    proof {
        assert(v@.subrange(at as int, at + needle@.len()) =~= needle@);
    }
    true
}

/// Whether `needle` stands anywhere in `v`.
pub fn contains(v: &Vec<char>, needle: &Vec<char>) -> (r: bool)
    ensures
        r == occurs(v@, needle@),
{
    let mut at: usize = 0;
    while at < v.len()
        invariant
            at <= v@.len(),
            forall|k: int| 0 <= k < at ==> !occurs_at(v@, needle@, k),
        decreases v@.len() - at,
    {
        if matches_at(v, needle, at) {
            return true;
        }
        at = at + 1;
    }
    matches_at(v, needle, at)
}

/// Whether the text `s` holds the text `needle`.
pub fn has_text(s: &str, needle: &str) -> (r: bool)
    ensures
        r == occurs(s@, needle@),
{
    let v = chars_of(s);
    let n = chars_of(needle);
    contains(&v, &n)
}

/// Whether the text `s` begins with the text `prefix`.
pub fn starts_with(s: &str, prefix: &str) -> (r: bool)
    ensures
        r == begins(s@, prefix@),
{
    let v = chars_of(s);
    let n = chars_of(prefix);
    matches_at(&v, &n, 0)
}

/// Whether the character `c` stands anywhere in `s`.
pub fn has_char(s: &str, c: char) -> (r: bool)
    ensures
        r == s@.contains(c),
{
    let v = chars_of(s);
    let mut i: usize = 0;
    while i < v.len()
        invariant
            i <= v@.len(),
            v@ == s@,
            forall|j: int| 0 <= j < i ==> v@[j] != c,
        decreases v@.len() - i,
    {
        if v[i] == c {
            proof {
                assert(s@[i as int] == c);
            }
            return true;
        }
        i = i + 1;
    }
    false
}

/// Whether `name` is one of `names`.
pub fn is_one_of(names: &Vec<String>, name: &str) -> (r: bool)
    ensures
        r == texts(names@).contains(name@),
{
    let mut i: usize = 0;
    while i < names.len()
        invariant
            i <= names@.len(),
            forall|j: int| 0 <= j < i ==> names@[j]@ != name@,
        decreases names@.len() - i,
    {
        if same(names[i].as_str(), name) {
            proof {
                assert(texts(names@)[i as int] == name@);
            }
            return true;
        }
        i = i + 1;
    }
    proof {
        assert forall|j: int| 0 <= j < texts(names@).len() implies texts(names@)[j] != name@ by {
            assert(texts(names@)[j] == names@[j]@);
        }
    }
    false
}

// ---------------------------------------------------------------------------
// Splitting and joining
// ---------------------------------------------------------------------------

/// First position at or after `from` whose character satisfies `p`, or the
/// length of `s` when there is none.
pub open spec fn first_at(s: Seq<char>, p: spec_fn(char) -> bool, from: int) -> int
    decreases s.len() - from,
{
    if from >= s.len() {
        s.len() as int
    } else if p(s[from]) {
        from
    } else {
        first_at(s, p, from + 1)
    }
}

/// The pieces of `s[from..]` between the characters that satisfy `p`. There is
/// always at least one piece, and a piece may be empty.
pub open spec fn pieces_from(s: Seq<char>, p: spec_fn(char) -> bool, from: int) -> Seq<Seq<char>>
    decreases s.len() - from,
{
    let end = first_at(s, p, from);
    if from < 0 || end < from || end >= s.len() {
        seq![s.subrange(from, s.len() as int)]
    } else {
        seq![s.subrange(from, end)] + pieces_from(s, p, end + 1)
    }
}

/// The pieces of `s` between the characters that satisfy `p`.
pub open spec fn pieces(s: Seq<char>, p: spec_fn(char) -> bool) -> Seq<Seq<char>> {
    pieces_from(s, p, 0)
}

/// The predicate that holds of `c` alone.
pub open spec fn only(c: char) -> spec_fn(char) -> bool {
    |x: char| x == c
}

/// Bounds of [`first_at`].
pub proof fn lemma_first_at(s: Seq<char>, p: spec_fn(char) -> bool, from: int)
    requires
        0 <= from <= s.len(),
    ensures
        from <= first_at(s, p, from) <= s.len(),
        first_at(s, p, from) < s.len() ==> p(s[first_at(s, p, from)]),
        forall|j: int| from <= j < first_at(s, p, from) ==> !p(#[trigger] s[j]),
    decreases s.len() - from,
{
    if from < s.len() && !p(s[from]) {
        lemma_first_at(s, p, from + 1);
    }
}

/// A position with no match before it and a match on it is the first one.
pub proof fn lemma_first_at_is(s: Seq<char>, p: spec_fn(char) -> bool, from: int, at: int)
    requires
        0 <= from <= at <= s.len(),
        forall|j: int| from <= j < at ==> !p(#[trigger] s[j]),
        at < s.len() ==> p(s[at]),
    ensures
        first_at(s, p, from) == at,
    decreases at - from,
{
    if from < at {
        assert(!p(s[from]));
        lemma_first_at_is(s, p, from + 1, at);
    }
}

/// Splits `v` at the marked positions.
fn split_marked(v: &Vec<char>, marks: &Vec<bool>, Ghost(p): Ghost<spec_fn(char) -> bool>) -> (r: Vec<
    String,
>)
    requires
        marks@.len() == v@.len(),
        forall|i: int| 0 <= i < v@.len() ==> marks@[i] == p(#[trigger] v@[i]),
    ensures
        texts(r@) == pieces(v@, p),
{
    let mut out: Vec<String> = Vec::new();
    let mut from: usize = 0;
    let mut i: usize = 0;
    proof {
        assert(texts(out@) + pieces_from(v@, p, 0) =~= pieces(v@, p));
    }
    while i < v.len()
        invariant
            0 <= from <= i <= v@.len(),
            marks@.len() == v@.len(),
            forall|i: int| 0 <= i < v@.len() ==> marks@[i] == p(#[trigger] v@[i]),
            forall|j: int| from <= j < i ==> !p(#[trigger] v@[j]),
            texts(out@) + pieces_from(v@, p, from as int) == pieces(v@, p),
        decreases v@.len() - i,
    {
        if marks[i] {
            let piece = string_range(v, from, i);
            proof {
                lemma_first_at_is(v@, p, from as int, i as int);
                let before = texts(out@);
                assert(texts(out@.push(piece)) =~= before.push(piece@));
                assert(before.push(piece@) + pieces_from(v@, p, i + 1) =~= before + (seq![
                    v@.subrange(from as int, i as int),
                ] + pieces_from(v@, p, i + 1)));
            }
            out.push(piece);
            from = i + 1;
        }
        i = i + 1;
    }
    let piece = string_range(v, from, v.len());
    proof {
        lemma_first_at_is(v@, p, from as int, v@.len() as int);
        let before = texts(out@);
        assert(texts(out@.push(piece)) =~= before.push(piece@));
        assert(before.push(piece@) =~= before + seq![v@.subrange(from as int, v@.len() as int)]);
    }
    out.push(piece);
    out
}

/// The pieces of `s` between occurrences of `c`.
pub fn split_on(s: &str, c: char) -> (r: Vec<String>)
    ensures
        texts(r@) == pieces(s@, only(c)),
{
    let v = chars_of(s);
    let mut marks: Vec<bool> = Vec::new();
    let mut i: usize = 0;
    while i < v.len()
        invariant
            i <= v@.len(),
            marks@.len() == i,
            forall|j: int| 0 <= j < i ==> marks@[j] == only(c)(#[trigger] v@[j]),
        decreases v@.len() - i,
    {
        marks.push(v[i] == c);
        i = i + 1;
    }
    split_marked(&v, &marks, Ghost(only(c)))
}

/// A character that cannot stand in an identifier.
pub open spec fn word_break() -> spec_fn(char) -> bool {
    |c: char| !letter_or_digit(c) && c != '_'
}

/// The pieces of `s` between characters that cannot stand in an identifier.
pub fn split_words(s: &str) -> (r: Vec<String>)
    ensures
        texts(r@) == pieces(s@, word_break()),
{
    let v = chars_of(s);
    let mut marks: Vec<bool> = Vec::new();
    let mut i: usize = 0;
    while i < v.len()
        invariant
            i <= v@.len(),
            marks@.len() == i,
            forall|j: int| 0 <= j < i ==> marks@[j] == word_break()(#[trigger] v@[j]),
        decreases v@.len() - i,
    {
        marks.push(!v[i].is_alphanumeric() && v[i] != '_');
        i = i + 1;
    }
    split_marked(&v, &marks, Ghost(word_break()))
}

/// White space as a predicate.
pub open spec fn blank() -> spec_fn(char) -> bool {
    |c: char| white_space(c)
}

/// The texts of `s` that are not empty, in order.
pub open spec fn nonempty(s: Seq<Seq<char>>) -> Seq<Seq<char>> {
    s.filter(|t: Seq<char>| t.len() > 0)
}

/// Keeps the texts that are not empty.
pub fn keep_nonempty(v: &Vec<String>) -> (r: Vec<String>)
    ensures
        texts(r@) == nonempty(texts(v@)),
{
    let ghost p = |t: Seq<char>| t.len() > 0;
    let mut out: Vec<String> = Vec::new();
    let mut i: usize = 0;
    proof {
        assert(texts(v@).take(0).filter(p) =~= Seq::empty()) by {
            reveal(Seq::filter);
        }
        assert(texts(out@) =~= Seq::empty());
    }
    while i < v.len()
        invariant
            i <= v@.len(),
            p == (|t: Seq<char>| t.len() > 0),
            texts(out@) == texts(v@).take(i as int).filter(p),
        decreases v@.len() - i,
    {
        proof {
            lemma_filter_step(texts(v@), p, i as int);
        }
        if !v[i].as_str().is_empty() {
            proof {
                assert(texts(out@.push(v@[i as int])) =~= texts(out@).push(v@[i as int]@));
            }
            out.push(v[i].clone());
        }
        i = i + 1;
    }
    proof {
        assert(texts(v@).take(v@.len() as int) =~= texts(v@));
    }
    out
}

/// One more element of a filtered prefix.
pub proof fn lemma_filter_step<T>(s: Seq<T>, p: spec_fn(T) -> bool, i: int)
    requires
        0 <= i < s.len(),
    ensures
        s.take(i + 1).filter(p) == (if p(s[i]) {
            s.take(i).filter(p).push(s[i])
        } else {
            s.take(i).filter(p)
        }),
{
    reveal(Seq::filter);
    assert(s.take(i + 1).drop_last() =~= s.take(i));
    assert(s.take(i + 1).last() == s[i]);
}

/// Filtering keeps elements apart.
pub proof fn lemma_filter_distinct<T>(s: Seq<T>, p: spec_fn(T) -> bool)
    requires
        s.no_duplicates(),
    ensures
        s.filter(p).no_duplicates(),
        forall|x: T| #[trigger] s.filter(p).contains(x) ==> s.contains(x) && p(x),
    decreases s.len(),
{
    reveal(Seq::filter);
    if s.len() > 0 {
        let head = s.drop_last();
        lemma_filter_distinct(head, p);
        let kept = head.filter(p);
        let all = s.filter(p);
        assert forall|x: T| #[trigger] all.contains(x) implies s.contains(x) && p(x) by {
            let k = all.index_of(x);
            if k < kept.len() {
                assert(kept[k] == x);
                assert(kept.contains(x));
                let m = head.index_of(x);
                assert(s[m] == x);
            } else {
                assert(s[s.len() - 1] == x);
            }
        }
        assert forall|i: int, j: int| 0 <= i < all.len() && 0 <= j < all.len() && i != j implies all[i]
            != all[j] by {
            if i >= kept.len() || j >= kept.len() {
                let k = if i < kept.len() { i } else { j };
                assert(kept.contains(kept[k]));
                let m = head.index_of(kept[k]);
                assert(s[m] != s[s.len() - 1]);
            }
        }
    }
}

/// The words of `s`: its pieces between white space that are not empty.
pub open spec fn words(s: Seq<char>) -> Seq<Seq<char>> {
    nonempty(pieces(s, blank()))
}

/// The words of `s`.
pub fn split_whitespace(s: &str) -> (r: Vec<String>)
    ensures
        texts(r@) == words(s@),
{
    let v = chars_of(s);
    let mut marks: Vec<bool> = Vec::new();
    let mut i: usize = 0;
    while i < v.len()
        invariant
            i <= v@.len(),
            marks@.len() == i,
            forall|j: int| 0 <= j < i ==> marks@[j] == blank()(#[trigger] v@[j]),
        decreases v@.len() - i,
    {
        marks.push(v[i].is_whitespace());
        i = i + 1;
    }
    let all = split_marked(&v, &marks, Ghost(blank()));
    keep_nonempty(&all)
}

/// The texts of `parts` with `sep` between each two.
pub open spec fn joined(parts: Seq<Seq<char>>, sep: Seq<char>) -> Seq<char>
    decreases parts.len(),
{
    if parts.len() == 0 {
        Seq::empty()
    } else if parts.len() == 1 {
        parts[0]
    } else {
        joined(parts.drop_last(), sep) + sep + parts.last()
    }
}

/// Joins `parts` with `sep` between each two.
pub fn join(parts: &Vec<String>, sep: &str) -> (r: String)
    ensures
        r@ == joined(texts(parts@), sep@),
{
    if parts.len() == 0 {
        return String::new();
    }
    let mut out = parts[0].clone();
    let mut i: usize = 1;
    proof {
        assert(texts(parts@).take(1).len() == 1);
        assert(texts(parts@).take(1)[0] == parts@[0]@);
    }
    while i < parts.len()
        invariant
            1 <= i <= parts@.len(),
            out@ == joined(texts(parts@).take(i as int), sep@),
        decreases parts@.len() - i,
    {
        proof {
            let t = texts(parts@);
            assert(t.take(i + 1).drop_last() =~= t.take(i as int));
            assert(t.take(i + 1).last() == parts@[i as int]@);
        }
        out.append(sep);
        out.append(parts[i].as_str());
        i = i + 1;
    }
    proof {
        assert(texts(parts@).take(parts@.len() as int) =~= texts(parts@));
    }
    out
}

/// The texts of `parts` one behind the other.
pub open spec fn flat(parts: Seq<Seq<char>>) -> Seq<char>
    decreases parts.len(),
{
    if parts.len() == 0 {
        Seq::empty()
    } else {
        flat(parts.drop_last()) + parts.last()
    }
}

/// One more part.
pub proof fn lemma_flat_step(parts: Seq<Seq<char>>, i: int)
    requires
        0 <= i < parts.len(),
    ensures
        flat(parts.take(i + 1)) == flat(parts.take(i)) + parts[i],
{
    assert(parts.take(i + 1).drop_last() =~= parts.take(i));
    assert(parts.take(i + 1).last() == parts[i]);
}

/// All parts.
pub proof fn lemma_flat_all(parts: Seq<Seq<char>>)
    ensures
        flat(parts.take(parts.len() as int)) == flat(parts),
{
    assert(parts.take(parts.len() as int) =~= parts);
}

/// Each text between `before` and `after`.
pub open spec fn wrapped(s: Seq<Seq<char>>, before: Seq<char>, after: Seq<char>) -> Seq<Seq<char>> {
    s.map_values(|t: Seq<char>| before + t + after)
}

/// The texts one behind the other, each between `before` and `after`.
pub fn wrap_each(v: &Vec<String>, before: &str, after: &str) -> (r: String)
    ensures
        r@ == flat(wrapped(texts(v@), before@, after@)),
{
    let ghost parts = wrapped(texts(v@), before@, after@);
    let mut out = String::new();
    let mut i: usize = 0;
    while i < v.len()
        invariant
            i <= v@.len(),
            parts == wrapped(texts(v@), before@, after@),
            out@ == flat(parts.take(i as int)),
        decreases v@.len() - i,
    {
        proof {
            lemma_flat_step(parts, i as int);
            assert(parts[i as int] == before@ + v@[i as int]@ + after@);
            assert(out@ + before@ + v@[i as int]@ + after@ =~= out@ + parts[i as int]);
        }
        out.append(before);
        out.append(v[i].as_str());
        out.append(after);
        i = i + 1;
    }
    proof {
        lemma_flat_all(parts);
    }
    out
}

// ---------------------------------------------------------------------------
// Trimming, lines, replacement
// ---------------------------------------------------------------------------

/// Position after the last character of `s[..to]` that does not satisfy `p`, or 0.
pub open spec fn trim_end_at(s: Seq<char>, p: spec_fn(char) -> bool, to: int) -> int
    decreases to,
{
    if to <= 0 {
        0
    } else if p(s[to - 1]) {
        trim_end_at(s, p, to - 1)
    } else {
        to
    }
}

/// Position of the first character of `s[from..]` that does not satisfy `p`, or
/// the length of `s`.
pub open spec fn trim_start_at(s: Seq<char>, p: spec_fn(char) -> bool, from: int) -> int
    decreases s.len() - from,
{
    if from >= s.len() {
        s.len() as int
    } else if p(s[from]) {
        trim_start_at(s, p, from + 1)
    } else {
        from
    }
}

/// `s` without the characters at its ends that satisfy `p`.
pub open spec fn trimmed_by(s: Seq<char>, p: spec_fn(char) -> bool) -> Seq<char> {
    let from = trim_start_at(s, p, 0);
    let to = trim_end_at(s, p, s.len() as int);
    if from <= to {
        s.subrange(from, to)
    } else {
        Seq::empty()
    }
}

/// `s` without the white space at its ends.
pub open spec fn trimmed(s: Seq<char>) -> Seq<char> {
    trimmed_by(s, blank())
}

proof fn lemma_trim_start_is(s: Seq<char>, p: spec_fn(char) -> bool, k: int, from: int)
    requires
        0 <= k <= from <= s.len(),
        forall|j: int| k <= j < from ==> p(#[trigger] s[j]),
        from < s.len() ==> !p(s[from]),
    ensures
        trim_start_at(s, p, k) == from,
    decreases from - k,
{
    if k < from {
        assert(p(s[k]));
        lemma_trim_start_is(s, p, k + 1, from);
    }
}

proof fn lemma_trim_end_is(s: Seq<char>, p: spec_fn(char) -> bool, k: int, to: int)
    requires
        0 <= to <= k <= s.len(),
        forall|j: int| to <= j < k ==> p(#[trigger] s[j]),
        to > 0 ==> !p(s[to - 1]),
    ensures
        trim_end_at(s, p, k) == to,
    decreases k - to,
{
    if to < k {
        assert(p(s[k - 1]));
        lemma_trim_end_is(s, p, k - 1, to);
    }
}

/// What trimming takes off: only characters that satisfy `p`, and all of them.
proof fn lemma_trim_ends(s: Seq<char>, p: spec_fn(char) -> bool, from: int, to: int)
    requires
        0 <= from <= s.len(),
        0 <= to <= s.len(),
    ensures
        from <= trim_start_at(s, p, from) <= s.len(),
        forall|j: int| from <= j < trim_start_at(s, p, from) ==> p(#[trigger] s[j]),
        trim_start_at(s, p, from) < s.len() ==> !p(s[trim_start_at(s, p, from)]),
        0 <= trim_end_at(s, p, to) <= to,
        forall|j: int| trim_end_at(s, p, to) <= j < to ==> p(#[trigger] s[j]),
        trim_end_at(s, p, to) > 0 ==> !p(s[trim_end_at(s, p, to) - 1]),
    decreases s.len() - from + to,
{
    if from < s.len() && p(s[from]) {
        lemma_trim_ends(s, p, from + 1, to);
    }
    if to > 0 && p(s[to - 1]) {
        lemma_trim_ends(s, p, from, to - 1);
    }
}

/// Characters that are trimmed can be put round a text or left off it.
pub proof fn lemma_trimmed_padded(
    a: Seq<char>,
    s: Seq<char>,
    b: Seq<char>,
    p: spec_fn(char) -> bool,
)
    requires
        forall|i: int| 0 <= i < a.len() ==> p(#[trigger] a[i]),
        forall|i: int| 0 <= i < b.len() ==> p(#[trigger] b[i]),
    ensures
        trimmed_by(a + s + b, p) == trimmed_by(s, p),
{
    let w = a + s + b;
    let n = s.len() as int;
    let k = a.len() as int;
    let from = trim_start_at(s, p, 0);
    let to = trim_end_at(s, p, n);
    lemma_trim_ends(s, p, 0, n);
    if from < to {
        assert forall|j: int| 0 <= j < k + from implies p(#[trigger] w[j]) by {
            if j >= k {
                assert(w[j] == s[j - k]);
            } else {
                assert(w[j] == a[j]);
            }
        }
        assert forall|j: int| k + to <= j < w.len() implies p(#[trigger] w[j]) by {
            if j < k + n {
                assert(w[j] == s[j - k]);
            } else {
                assert(w[j] == b[j - k - n]);
            }
        }
        assert(w[k + from] == s[from]);
        assert(w[k + to - 1] == s[to - 1]);
        lemma_trim_start_is(w, p, 0, k + from);
        lemma_trim_end_is(w, p, w.len() as int, k + to);
        assert(w.subrange(k + from, k + to) =~= s.subrange(from, to));
    } else {
        assert forall|j: int| 0 <= j < n implies p(#[trigger] s[j]) by {
            if j >= from {
                assert(j >= to);
            }
        }
        assert forall|j: int| 0 <= j < w.len() implies p(#[trigger] w[j]) by {
            if j < k {
                assert(w[j] == a[j]);
            } else if j < k + n {
                assert(w[j] == s[j - k]);
            } else {
                assert(w[j] == b[j - k - n]);
            }
        }
        lemma_trim_start_is(w, p, 0, w.len() as int);
        lemma_trim_end_is(w, p, w.len() as int, 0);
        lemma_trim_start_is(s, p, 0, n);
        lemma_trim_end_is(s, p, n, 0);
        assert(trimmed_by(w, p) =~= Seq::empty());
        assert(trimmed_by(s, p) =~= Seq::empty());
    }
}

/// `s` without the white space at its start.
pub open spec fn start_trimmed(s: Seq<char>) -> Seq<char> {
    s.skip(trim_start_at(s, blank(), 0))
}

/// Trims the marked characters at the ends.
fn trim_marked(v: &Vec<char>, marks: &Vec<bool>, Ghost(p): Ghost<spec_fn(char) -> bool>) -> (r:
    String)
    requires
        marks@.len() == v@.len(),
        forall|i: int| 0 <= i < v@.len() ==> marks@[i] == p(#[trigger] v@[i]),
    ensures
        r@ == trimmed_by(v@, p),
{
    let mut from: usize = 0;
    while from < v.len() && marks[from]
        invariant
            from <= v@.len(),
            marks@.len() == v@.len(),
            forall|i: int| 0 <= i < v@.len() ==> marks@[i] == p(#[trigger] v@[i]),
            trim_start_at(v@, p, 0) == trim_start_at(v@, p, from as int),
        decreases v@.len() - from,
    {
        proof {
            assert(p(v@[from as int]));
        }
        from = from + 1;
    }
    proof {
        if from < v@.len() {
            assert(!p(v@[from as int]));
        }
    }
    let mut to: usize = v.len();
    while to > 0 && marks[to - 1]
        invariant
            to <= v@.len(),
            marks@.len() == v@.len(),
            forall|i: int| 0 <= i < v@.len() ==> marks@[i] == p(#[trigger] v@[i]),
            trim_end_at(v@, p, v@.len() as int) == trim_end_at(v@, p, to as int),
        decreases to,
    {
        proof {
            assert(p(v@[to - 1]));
        }
        to = to - 1;
    }
    proof {
        if to > 0 {
            assert(!p(v@[to - 1]));
        }
    }
    if from <= to {
        string_range(v, from, to)
    } else {
        String::new()
    }
}

/// `s` without the white space at its ends.
pub fn trim(s: &str) -> (r: String)
    ensures
        r@ == trimmed(s@),
{
    let v = chars_of(s);
    let mut marks: Vec<bool> = Vec::new();
    let mut i: usize = 0;
    while i < v.len()
        invariant
            i <= v@.len(),
            marks@.len() == i,
            forall|j: int| 0 <= j < i ==> marks@[j] == blank()(#[trigger] v@[j]),
        decreases v@.len() - i,
    {
        marks.push(v[i].is_whitespace());
        i = i + 1;
    }
    trim_marked(&v, &marks, Ghost(blank()))
}

/// `s` without the occurrences of `c` at its ends.
pub fn trim_char(s: &str, c: char) -> (r: String)
    ensures
        r@ == trimmed_by(s@, only(c)),
{
    let v = chars_of(s);
    let mut marks: Vec<bool> = Vec::new();
    let mut i: usize = 0;
    while i < v.len()
        invariant
            i <= v@.len(),
            marks@.len() == i,
            forall|j: int| 0 <= j < i ==> marks@[j] == only(c)(#[trigger] v@[j]),
        decreases v@.len() - i,
    {
        marks.push(v[i] == c);
        i = i + 1;
    }
    trim_marked(&v, &marks, Ghost(only(c)))
}

/// `s` without the white space at its start.
pub fn trim_start(s: &str) -> (r: String)
    ensures
        r@ == start_trimmed(s@),
{
    let v = chars_of(s);
    let mut from: usize = 0;
    while from < v.len() && v[from].is_whitespace()
        invariant
            from <= v@.len(),
            trim_start_at(v@, blank(), 0) == trim_start_at(v@, blank(), from as int),
        decreases v@.len() - from,
    {
        from = from + 1;
    }
    let r = string_range(&v, from, v.len());
    proof {
        assert(r@ =~= v@.skip(from as int));
    }
    r
}

/// `s` behind `prefix`, where it begins with it.
pub fn strip_prefix(s: &str, prefix: &str) -> (r: Option<String>)
    ensures
        match r {
            Some(t) => begins(s@, prefix@) && t@ == s@.skip(prefix@.len() as int),
            None => !begins(s@, prefix@),
        },
{
    let v = chars_of(s);
    let n = chars_of(prefix);
    if matches_at(&v, &n, 0) {
        let t = string_range(&v, n.len(), v.len());
        proof {
            assert(t@ =~= v@.skip(n@.len() as int));
        }
        Some(t)
    } else {
        None
    }
}

/// `s` without `suffix` at its end, as often as it stands there.
pub open spec fn without_suffix(s: Seq<char>, suffix: Seq<char>) -> Seq<char>
    decreases s.len(),
{
    if suffix.len() > 0 && occurs_at(s, suffix, s.len() - suffix.len()) {
        without_suffix(s.take(s.len() - suffix.len()), suffix)
    } else {
        s
    }
}

/// `s` without `suffix` at its end, as often as it stands there.
pub fn trim_end_matches(s: &str, suffix: &str) -> (r: String)
    ensures
        r@ == without_suffix(s@, suffix@),
{
    let v = chars_of(s);
    let n = chars_of(suffix);
    let mut to: usize = v.len();
    proof {
        assert(v@.take(to as int) =~= v@);
    }
    if n.len() == 0 {
        return string_of(&v);
    }
    loop
        invariant
            to <= v@.len(),
            n@.len() > 0,
            n@ == suffix@,
            v@ == s@,
            without_suffix(v@, n@) == without_suffix(v@.take(to as int), n@),
        decreases to,
    {
        let ghost cur = v@.take(to as int);
        if n.len() > to {
            return string_range(&v, 0, to);
        }
        let at: usize = to - n.len();
        let mut i: usize = 0;
        let mut equal: bool = true;
        while i < n.len()
            invariant
                i <= n@.len(),
                at + n@.len() == to,
                to <= v.len(),
                equal == (forall|j: int| 0 <= j < i ==> v@[at + j] == n@[j]),
            decreases n@.len() - i,
        {
            if v[at + i] != n[i] {
                equal = false;
            }
            i = i + 1;
        }
        proof {
            if equal {
                assert(cur.subrange(at as int, at + n@.len()) =~= n@);
                assert(cur.take(at as int) =~= v@.take(at as int));
            } else {
                let j = choose|j: int| 0 <= j < n@.len() && v@[at + j] != n@[j];
                assert(cur.subrange(at as int, at + n@.len())[j] != n@[j]);
            }
        }
        if !equal {
            return string_range(&v, 0, to);
        }
        to = at;
    }
}

/// Position of the first `needle` in `s[from..]`, or the length of `s`.
pub open spec fn find_from(s: Seq<char>, needle: Seq<char>, from: int) -> int
    decreases s.len() - from,
{
    if from >= s.len() {
        s.len() as int
    } else if occurs_at(s, needle, from) {
        from
    } else {
        find_from(s, needle, from + 1)
    }
}

/// `s` up to the first `needle`, or all of it.
pub fn before(s: &str, needle: &str) -> (r: String)
    ensures
        r@ == s@.take(find_from(s@, needle@, 0)),
{
    let v = chars_of(s);
    let n = chars_of(needle);
    let mut at: usize = 0;
    while at < v.len() && !matches_at(&v, &n, at)
        invariant
            at <= v@.len(),
            find_from(v@, n@, 0) == find_from(v@, n@, at as int),
        decreases v@.len() - at,
    {
        at = at + 1;
    }
    let r = string_range(&v, 0, at);
    proof {
        assert(r@ =~= v@.take(at as int));
    }
    r
}

/// `s` without one trailing carriage return.
pub open spec fn without_return(s: Seq<char>) -> Seq<char> {
    if s.len() > 0 && s.last() == '\r' {
        s.drop_last()
    } else {
        s
    }
}

/// The lines of `s`: its pieces between line feeds, each without one trailing
/// carriage return. What stands after the last line feed is a line only when
/// it is not empty, and keeps its carriage return.
pub open spec fn lines_of(s: Seq<char>) -> Seq<Seq<char>> {
    let all = pieces(s, only('\n'));
    let closed = all.drop_last().map_values(|l: Seq<char>| without_return(l));
    if all.last().len() == 0 {
        closed
    } else {
        closed.push(all.last())
    }
}

/// There is always at least one piece.
pub proof fn lemma_pieces_nonempty(s: Seq<char>, p: spec_fn(char) -> bool, from: int)
    requires
        0 <= from <= s.len(),
    ensures
        pieces_from(s, p, from).len() > 0,
    decreases s.len() - from,
{
    lemma_first_at(s, p, from);
    let end = first_at(s, p, from);
    if end < s.len() {
        lemma_pieces_nonempty(s, p, end + 1);
    }
}

proof fn lemma_pieces_shift(
    front: Seq<char>,
    b: Seq<char>,
    p: spec_fn(char) -> bool,
    k: int,
)
    requires
        0 <= k <= b.len(),
    ensures
        pieces_from(front + b, p, front.len() + k) == pieces_from(b, p, k),
    decreases b.len() - k,
{
    let w = front + b;
    let n = front.len() as int;
    let end = first_at(b, p, k);
    lemma_first_at(b, p, k);
    assert forall|j: int| n + k <= j < n + end implies !p(#[trigger] w[j]) by {
        assert(w[j] == b[j - n]);
    }
    if end < b.len() {
        assert(w[n + end] == b[end]);
    }
    lemma_first_at_is(w, p, n + k, n + end);
    if end < b.len() {
        lemma_pieces_shift(front, b, p, end + 1);
        assert(w.subrange(n + k, n + end) =~= b.subrange(k, end));
    } else {
        assert(w.subrange(n + k, w.len() as int) =~= b.subrange(k, b.len() as int));
    }
}

/// The pieces of two texts with a separator between them are those of the one,
/// then those of the other.
pub proof fn lemma_pieces_join(
    a: Seq<char>,
    c: char,
    b: Seq<char>,
    p: spec_fn(char) -> bool,
    from: int,
)
    requires
        p(c),
        0 <= from <= a.len(),
    ensures
        pieces_from(a + seq![c] + b, p, from) == pieces_from(a, p, from) + pieces(b, p),
    decreases a.len() - from,
{
    let w = a + seq![c] + b;
    let end = first_at(a, p, from);
    lemma_first_at(a, p, from);
    assert forall|j: int| from <= j < end implies !p(#[trigger] w[j]) by {
        assert(w[j] == a[j]);
    }
    if end < a.len() {
        assert(w[end] == a[end]);
        lemma_first_at_is(w, p, from, end);
        lemma_pieces_join(a, c, b, p, end + 1);
        assert(w.subrange(from, end) =~= a.subrange(from, end));
        assert(seq![a.subrange(from, end)] + (pieces_from(a, p, end + 1) + pieces(b, p)) =~= seq![
            a.subrange(from, end),
        ] + pieces_from(a, p, end + 1) + pieces(b, p));
    } else {
        assert(w[end] == c);
        lemma_first_at_is(w, p, from, end);
        let front = a + seq![c];
        lemma_pieces_shift(front, b, p, 0);
        assert(w.subrange(from, end) =~= a.subrange(from, a.len() as int));
    }
}

/// The lines of `s`.
pub fn lines(s: &str) -> (r: Vec<String>)
    ensures
        texts(r@) == lines_of(s@),
{
    let all = split_on(s, '\n');
    let ghost pieces_seq = pieces(s@, only('\n'));
    proof {
        lemma_pieces_nonempty(s@, only('\n'), 0);
        assert(texts(all@).len() == all@.len());
    }
    let mut out: Vec<String> = Vec::new();
    let last: usize = all.len() - 1;
    let mut i: usize = 0;
    let ghost closed = pieces_seq.drop_last().map_values(|l: Seq<char>| without_return(l));
    while i < last
        invariant
            i <= last,
            last == all@.len() - 1,
            texts(all@) == pieces_seq,
            closed == pieces_seq.drop_last().map_values(|l: Seq<char>| without_return(l)),
            texts(out@) == closed.take(i as int),
        decreases last - i,
    {
        let v = chars_of(all[i].as_str());
        proof {
            assert(pieces_seq[i as int] == all@[i as int]@);
            assert(closed[i as int] == without_return(all@[i as int]@));
        }
        let line = if v.len() > 0 && v[v.len() - 1] == '\r' {
            let l = string_range(&v, 0, v.len() - 1);
            proof {
                assert(l@ =~= v@.drop_last());
            }
            l
        } else {
            all[i].clone()
        };
        proof {
            assert(texts(out@.push(line)) =~= texts(out@).push(line@));
            assert(closed.take(i + 1) =~= closed.take(i as int).push(closed[i as int]));
        }
        out.push(line);
        i = i + 1;
    }
    proof {
        assert(closed.take(last as int) =~= closed);
        assert(pieces_seq.last() == all@[last as int]@);
    }
    if !all[last].as_str().is_empty() {
        proof {
            assert(texts(out@.push(all@[last as int])) =~= texts(out@).push(all@[last as int]@));
        }
        out.push(all[last].clone());
    }
    out
}

/// `s` with every `from` turned into `to`.
pub open spec fn replaced(s: Seq<char>, from: char, to: char) -> Seq<char> {
    s.map_values(|c: char| if c == from { to } else { c })
}

/// `s` with every `from` turned into `to`.
pub fn replace_char(s: &str, from: char, to: char) -> (r: String)
    ensures
        r@ == replaced(s@, from, to),
{
    let v = chars_of(s);
    let mut out = String::new();
    let mut i: usize = 0;
    while i < v.len()
        invariant
            i <= v@.len(),
            out@ == replaced(v@, from, to).take(i as int),
        decreases v@.len() - i,
    {
        proof {
            let t = replaced(v@, from, to);
            assert(t.take(i + 1) =~= t.take(i as int).push(t[i as int]));
        }
        out.push(if v[i] == from { to } else { v[i] });
        i = i + 1;
    }
    proof {
        assert(replaced(v@, from, to).take(v@.len() as int) =~= replaced(v@, from, to));
    }
    out
}

// ---------------------------------------------------------------------------
// Numbers
// ---------------------------------------------------------------------------

/// The decimal digit for `d`.
pub open spec fn digit(d: nat) -> char {
    if d == 0 { '0' } else if d == 1 { '1' } else if d == 2 { '2' } else if d == 3 { '3' }
    else if d == 4 { '4' } else if d == 5 { '5' } else if d == 6 { '6' } else if d == 7 { '7' }
    else if d == 8 { '8' } else if d == 9 { '9' } else if d == 10 { 'a' } else if d == 11 { 'b' }
    else if d == 12 { 'c' } else if d == 13 { 'd' } else if d == 14 { 'e' } else { 'f' }
}

/// `n` in decimal.
pub open spec fn decimal(n: nat) -> Seq<char>
    decreases n,
{
    if n < 10 {
        seq![digit(n)]
    } else {
        decimal(n / 10).push(digit(n % 10))
    }
}

/// The lowest `width` hexadecimal digits of `n`, lower case.
pub open spec fn hex(n: nat, width: nat) -> Seq<char>
    decreases width,
{
    if width == 0 {
        Seq::empty()
    } else {
        hex(n / 16, (width - 1) as nat).push(digit(n % 16))
    }
}

/// The digit for `d`.
fn digit_char(d: u64) -> (r: char)
    requires
        d < 16,
    ensures
        r == digit(d as nat),
{
    if d == 0 { '0' } else if d == 1 { '1' } else if d == 2 { '2' } else if d == 3 { '3' }
    else if d == 4 { '4' } else if d == 5 { '5' } else if d == 6 { '6' } else if d == 7 { '7' }
    else if d == 8 { '8' } else if d == 9 { '9' } else if d == 10 { 'a' } else if d == 11 { 'b' }
    else if d == 12 { 'c' } else if d == 13 { 'd' } else if d == 14 { 'e' } else { 'f' }
}

/// `n` in decimal.
pub fn decimal_text(n: u64) -> (r: String)
    ensures
        r@ == decimal(n as nat),
    decreases n,
{
    if n < 10 {
        let mut s = String::new();
        s.push(digit_char(n));
        proof {
            assert(s@ =~= seq![digit(n as nat)]);
        }
        s
    } else {
        let mut s = decimal_text(n / 10);
        s.push(digit_char(n % 10));
        s
    }
}

/// The lowest `width` hexadecimal digits of `n`.
pub fn hex_text(n: u64, width: usize) -> (r: String)
    ensures
        r@ == hex(n as nat, width as nat),
    decreases width,
{
    if width == 0 {
        String::new()
    } else {
        let mut s = hex_text(n / 16, width - 1);
        s.push(digit_char(n % 16));
        s
    }
}

// ---------------------------------------------------------------------------
// Order
// ---------------------------------------------------------------------------

/// Lexicographic order by character.
pub open spec fn text_lt(a: Seq<char>, b: Seq<char>) -> bool
    decreases a.len(),
{
    if b.len() == 0 {
        false
    } else if a.len() == 0 {
        true
    } else if a[0] != b[0] {
        a[0] < b[0]
    } else {
        text_lt(a.skip(1), b.skip(1))
    }
}

/// Whether `a` stands before `b` in lexicographic order.
pub fn less(a: &str, b: &str) -> (r: bool)
    ensures
        r == text_lt(a@, b@),
{
    let x = chars_of(a);
    let y = chars_of(b);
    let mut i: usize = 0;
    proof {
        assert(x@.skip(0) =~= x@);
        assert(y@.skip(0) =~= y@);
    }
    while i < x.len() && i < y.len() && x[i] == y[i]
        invariant
            i <= x@.len(),
            i <= y@.len(),
            text_lt(x@, y@) == text_lt(x@.skip(i as int), y@.skip(i as int)),
        decreases x@.len() - i,
    {
        proof {
            assert(x@.skip(i as int).skip(1) =~= x@.skip(i + 1));
            assert(y@.skip(i as int).skip(1) =~= y@.skip(i + 1));
        }
        i = i + 1;
    }
    if i >= y.len() {
        false
    } else if i >= x.len() {
        true
    } else {
        x[i] < y[i]
    }
}

/// Lexicographic order is irreflexive.
pub proof fn lemma_text_lt_irreflexive(a: Seq<char>)
    ensures
        !text_lt(a, a),
    decreases a.len(),
{
    if a.len() > 0 {
        lemma_text_lt_irreflexive(a.skip(1));
    }
}

/// Lexicographic order is transitive.
pub proof fn lemma_text_lt_transitive(a: Seq<char>, b: Seq<char>, c: Seq<char>)
    requires
        text_lt(a, b),
        text_lt(b, c),
    ensures
        text_lt(a, c),
    decreases a.len(),
{
    if a.len() > 0 && b.len() > 0 && c.len() > 0 && a[0] == b[0] && b[0] == c[0] {
        lemma_text_lt_transitive(a.skip(1), b.skip(1), c.skip(1));
    }
}

/// Of two different texts one stands before the other.
pub proof fn lemma_text_lt_total(a: Seq<char>, b: Seq<char>)
    ensures
        text_lt(a, b) || text_lt(b, a) || a == b,
    decreases a.len(),
{
    if a.len() > 0 && b.len() > 0 && a[0] == b[0] {
        lemma_text_lt_total(a.skip(1), b.skip(1));
        if a.skip(1) == b.skip(1) {
            assert forall|i: int| 0 <= i < a.len() implies a[i] == b[i] by {
                if i > 0 {
                    assert(a.skip(1)[i - 1] == b.skip(1)[i - 1]);
                }
            }
            assert(a.skip(1).len() == b.skip(1).len());
            assert(a =~= b);
        }
    } else if a.len() == 0 && b.len() == 0 {
        assert(a =~= b);
    }
}

/// No two texts stand before each other.
pub proof fn lemma_text_lt_asymmetric(a: Seq<char>, b: Seq<char>)
    requires
        text_lt(a, b),
    ensures
        !text_lt(b, a),
        a != b,
{
    if text_lt(b, a) {
        lemma_text_lt_transitive(a, b, a);
    }
    lemma_text_lt_irreflexive(a);
}

/// Whether `s[a..b]` is a longest run of characters that do not satisfy `p`.
pub open spec fn is_run(s: Seq<char>, p: spec_fn(char) -> bool, a: int, b: int) -> bool {
    &&& 0 <= a <= b <= s.len()
    &&& (a == 0 || p(s[a - 1]))
    &&& (b == s.len() || p(s[b]))
    &&& forall|j: int| a <= j < b ==> !p(#[trigger] s[j])
}

proof fn lemma_pieces_are_runs(s: Seq<char>, p: spec_fn(char) -> bool, from: int, t: Seq<char>)
    requires
        0 <= from <= s.len(),
        from == 0 || p(s[from - 1]),
        pieces_from(s, p, from).contains(t),
    ensures
        exists|a: int, b: int| #[trigger] is_run(s, p, a, b) && t == s.subrange(a, b),
    decreases s.len() - from,
{
    lemma_first_at(s, p, from);
    let end = first_at(s, p, from);
    assert(is_run(s, p, from, end));
    if t != s.subrange(from, end) {
        let rest = pieces_from(s, p, end + 1);
        let all = pieces_from(s, p, from);
        let k = all.index_of(t);
        assert(k > 0);
        assert(rest[k - 1] == t);
        lemma_pieces_are_runs(s, p, end + 1, t);
    }
}

proof fn lemma_runs_are_pieces(s: Seq<char>, p: spec_fn(char) -> bool, from: int, a: int, b: int)
    requires
        0 <= from <= a,
        is_run(s, p, a, b),
    ensures
        pieces_from(s, p, from).contains(s.subrange(a, b)),
    decreases a - from,
{
    lemma_first_at(s, p, from);
    let end = first_at(s, p, from);
    let all = pieces_from(s, p, from);
    if a == from {
        lemma_first_at_is(s, p, from, b);
        assert(all[0] == s.subrange(a, b));
    } else {
        assert(end <= a - 1) by {
            if end > a - 1 {
                assert(!p(s[a - 1]));
            }
        }
        lemma_runs_are_pieces(s, p, end + 1, a, b);
        let rest = pieces_from(s, p, end + 1);
        let k = rest.index_of(s.subrange(a, b));
        assert(all[k + 1] == rest[k]);
    }
}

/// The pieces of a text are its longest runs without a separator: each piece is
/// such a run, and each such run is a piece.
pub proof fn pieces_are_the_runs_between_separators(
    s: Seq<char>,
    p: spec_fn(char) -> bool,
    t: Seq<char>,
)
    ensures
        pieces(s, p).contains(t) <==> exists|a: int, b: int| #[trigger]
            is_run(s, p, a, b) && t == s.subrange(a, b),
{
    if pieces(s, p).contains(t) {
        lemma_pieces_are_runs(s, p, 0, t);
    }
    if exists|a: int, b: int| #[trigger] is_run(s, p, a, b) && t == s.subrange(a, b) {
        let (a, b) = choose|a: int, b: int| #[trigger] is_run(s, p, a, b) && t == s.subrange(a, b);
        lemma_runs_are_pieces(s, p, 0, a, b);
    }
}

/// Among ASCII characters it is the letters, the digits and the underscore that
/// do not end a word.
pub proof fn ascii_words_are_letters_digits_and_underscores(c: char)
    requires
        (c as u32) < 128,
    ensures
        word_break()(c) <==> !(('a' <= c && c <= 'z') || ('A' <= c && c <= 'Z') || ('0' <= c && c
            <= '9') || c == '_'),
{
}

/// A text is read line by line: its first line is what stands before the first
/// line feed, without one carriage return at its end, and the others are the
/// lines of what stands behind it. A text without a line feed is one line, or
/// none where it is empty.
pub proof fn lines_end_at_line_feeds(a: Seq<char>, b: Seq<char>)
    requires
        !a.contains('\n'),
    ensures
        lines_of(a + seq!['\n'] + b) == seq![
            if a.len() > 0 && a.last() == '\r' {
                a.drop_last()
            } else {
                a
            },
        ] + lines_of(b),
        a.len() > 0 ==> lines_of(a) == seq![a],
        a.len() == 0 ==> lines_of(a).len() == 0,
{
    let p = only('\n');
    let w = a + seq!['\n'] + b;
    assert forall|j: int| 0 <= j < a.len() implies !p(#[trigger] a[j]) by {
        if a[j] == '\n' {
            assert(a.contains(a[j]));
        }
    }
    lemma_first_at_is(a, p, 0, a.len() as int);
    assert(pieces(a, p) =~= seq![a]) by {
        assert(a.subrange(0, a.len() as int) =~= a);
    }
    lemma_pieces_join(a, '\n', b, p, 0);
    lemma_pieces_nonempty(b, p, 0);
    let all = pieces(w, p);
    let rest = pieces(b, p);
    let f = |l: Seq<char>| without_return(l);
    assert(all =~= seq![a] + rest);
    assert(all.last() == rest.last());
    assert(all.drop_last() =~= seq![a] + rest.drop_last());
    assert(all.drop_last().map_values(f) =~= seq![without_return(a)] + rest.drop_last().map_values(
        f,
    ));
    assert(lines_of(w) =~= seq![without_return(a)] + lines_of(b));
    assert(pieces(a, p).drop_last() =~= Seq::empty());
    assert(pieces(a, p).last() == a);
    assert(pieces(a, p).drop_last().map_values(f) =~= Seq::empty());
    if a.len() > 0 {
        assert(lines_of(a) =~= seq![a]);
    }
}

/// Trimming takes characters off both ends as long as they satisfy the
/// predicate, and no others: what stays is the text between them.
pub proof fn trimming_stops_at_what_stays(
    a: Seq<char>,
    s: Seq<char>,
    b: Seq<char>,
    p: spec_fn(char) -> bool,
)
    requires
        forall|i: int| 0 <= i < a.len() ==> p(#[trigger] a[i]),
        forall|i: int| 0 <= i < b.len() ==> p(#[trigger] b[i]),
        s.len() > 0,
        !p(s[0]),
        !p(s.last()),
    ensures
        trimmed_by(a + s + b, p) == s,
{
    lemma_trimmed_padded(a, s, b, p);
    lemma_trim_start_is(s, p, 0, 0);
    lemma_trim_end_is(s, p, s.len() as int, s.len() as int);
    assert(s.subrange(0, s.len() as int) =~= s);
}

/// Of a text that satisfies the predicate throughout, trimming leaves nothing.
pub proof fn trimming_can_take_everything(s: Seq<char>, p: spec_fn(char) -> bool)
    requires
        forall|i: int| 0 <= i < s.len() ==> p(#[trigger] s[i]),
    ensures
        trimmed_by(s, p).len() == 0,
{
    lemma_trim_start_is(s, p, 0, s.len() as int);
    lemma_trim_end_is(s, p, s.len() as int, 0);
}

/// Trimming the start takes the white space there off, and nothing else.
pub proof fn start_trimming_stops_at_what_stays(a: Seq<char>, s: Seq<char>)
    requires
        forall|i: int| 0 <= i < a.len() ==> white_space(#[trigger] a[i]),
        s.len() > 0 ==> !white_space(s[0]),
    ensures
        start_trimmed(a + s) == s,
{
    let w = a + s;
    assert forall|j: int| 0 <= j < a.len() implies blank()(#[trigger] w[j]) by {
        assert(w[j] == a[j]);
    }
    if s.len() > 0 {
        assert(w[a.len() as int] == s[0]);
    }
    lemma_trim_start_is(w, blank(), 0, a.len() as int);
    assert(w.skip(a.len() as int) =~= s);
}

/// The first occurrence of a text is where it occurs with none before it.
pub proof fn lemma_find_from_is(s: Seq<char>, needle: Seq<char>, from: int, at: int)
    requires
        0 <= from <= at < s.len(),
        occurs_at(s, needle, at),
        forall|j: int| from <= j < at ==> !#[trigger] occurs_at(s, needle, j),
    ensures
        find_from(s, needle, from) == at,
    decreases at - from,
{
    if from < at {
        assert(!occurs_at(s, needle, from));
        lemma_find_from_is(s, needle, from + 1, at);
    }
}

/// A text that does not occur is found at the end.
pub proof fn lemma_find_from_none(s: Seq<char>, needle: Seq<char>, from: int)
    requires
        0 <= from,
        forall|j: int| from <= j < s.len() ==> !#[trigger] occurs_at(s, needle, j),
    ensures
        find_from(s, needle, from) == s.len(),
    decreases s.len() - from,
{
    if from < s.len() {
        assert(!occurs_at(s, needle, from));
        lemma_find_from_none(s, needle, from + 1);
    }
}

/// Whether `part` stands somewhere in `s`.
pub open spec fn holds(s: Seq<char>, part: Seq<char>) -> bool {
    exists|a: Seq<char>, b: Seq<char>| s == #[trigger] (a + part + b)
}

/// A text holds itself.
pub broadcast proof fn lemma_holds_itself(s: Seq<char>)
    ensures
        #[trigger] holds(s, s),
{
    let none = Seq::<char>::empty();
    assert(s =~= none + s + none);
}

/// Two texts behind each other hold what either holds.
pub broadcast proof fn lemma_holds_join(a: Seq<char>, b: Seq<char>, part: Seq<char>)
    requires
        holds(a, part) || holds(b, part),
    ensures
        #[trigger] holds(a + b, part),
{
    if holds(a, part) {
        let (x, y) = choose|x: Seq<char>, y: Seq<char>| a == #[trigger] (x + part + y);
        assert(a + b =~= x + part + (y + b));
    } else {
        let (x, y) = choose|x: Seq<char>, y: Seq<char>| b == #[trigger] (x + part + y);
        assert(a + b =~= (a + x) + part + y);
    }
}

pub broadcast group group_holds {
    lemma_holds_itself,
    lemma_holds_join,
}

/// Texts behind each other hold each of them.
pub proof fn lemma_holds_flat(parts: Seq<Seq<char>>, i: int, part: Seq<char>)
    requires
        0 <= i < parts.len(),
        holds(parts[i], part),
    ensures
        holds(flat(parts), part),
    decreases parts.len(),
{
    broadcast use group_holds;

    if i == parts.len() - 1 {
        assert(parts.last() == parts[i]);
    } else {
        assert(parts.drop_last()[i] == parts[i]);
        lemma_holds_flat(parts.drop_last(), i, part);
    }
}

/// Joined texts hold each of them.
pub proof fn lemma_holds_joined(parts: Seq<Seq<char>>, sep: Seq<char>, i: int, part: Seq<char>)
    requires
        0 <= i < parts.len(),
        holds(parts[i], part),
    ensures
        holds(joined(parts, sep), part),
    decreases parts.len(),
{
    broadcast use group_holds;

    if parts.len() > 1 {
        if i == parts.len() - 1 {
            assert(parts.last() == parts[i]);
        } else {
            assert(parts.drop_last()[i] == parts[i]);
            lemma_holds_joined(parts.drop_last(), sep, i, part);
        }
    }
}

/// A text is replaced character by character.
pub proof fn replacing_goes_character_by_character(s: Seq<char>, from: char, to: char, i: int)
    requires
        0 <= i < s.len(),
    ensures
        replaced(s, from, to).len() == s.len(),
        s[i] == from ==> replaced(s, from, to)[i] == to,
        s[i] != from ==> replaced(s, from, to)[i] == s[i],
{
}

/// A number is written by its decimal digits, the last of them behind those of
/// the rest.
pub proof fn decimals_are_written_digit_by_digit(n: nat, d: nat)
    requires
        d < 10,
    ensures
        decimal(d).len() == 1,
        decimal(d)[0] as int == '0' as int + d,
        n > 0 ==> decimal(n * 10 + d) == decimal(n).push(decimal(d)[0]),
{
    if n > 0 {
        assert((n * 10 + d) / 10 == n);
        assert((n * 10 + d) % 10 == d);
        assert(decimal(n * 10 + d) =~= decimal(n).push(decimal(d)[0]));
    }
}

/// A text occurs in another just where the other holds it.
pub proof fn lemma_occurs_holds(s: Seq<char>, part: Seq<char>)
    ensures
        occurs(s, part) <==> holds(s, part),
{
    if occurs(s, part) {
        let at = choose|at: int| occurs_at(s, part, at);
        assert(s.subrange(at, at + part.len()) == part);
        assert(s =~= s.take(at) + part + s.skip(at + part.len()));
    }
    if holds(s, part) {
        let (a, b) = choose|a: Seq<char>, b: Seq<char>| s == #[trigger] (a + part + b);
        assert(s.subrange(a.len() as int, a.len() + part.len() as int) =~= part);
        assert(occurs_at(s, part, a.len() as int));
    }
}

/// A hexadecimal number is written by its digits, the last of them behind those
/// of the rest; the digits from ten on are the letters from `a` on.
pub proof fn hexadecimals_are_written_digit_by_digit(n: nat, d: nat, width: nat)
    requires
        d < 16,
    ensures
        hex(n, width).len() == width,
        hex(n * 16 + d, width + 1) == hex(n, width).push(digit(d)),
        d < 10 ==> digit(d) as int == '0' as int + d,
        d >= 10 ==> digit(d) as int == 'a' as int + d - 10,
    decreases width,
{
    assert((n * 16 + d) / 16 == n);
    assert((n * 16 + d) % 16 == d);
    if width > 0 {
        hexadecimals_are_written_digit_by_digit(n / 16, d, (width - 1) as nat);
    }
}

/// Among ASCII characters it is the space and the controls from tab to carriage
/// return that are white space.
pub proof fn ascii_white_space_is_space_and_controls(c: char)
    requires
        (c as u32) < 128,
    ensures
        white_space(c) <==> c == ' ' || c == '\t' || c == '\n' || c == '\r' || c as u32 == 11
            || c as u32 == 12,
{
}

} // verus!
