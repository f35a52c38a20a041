//! The plain report of affected tests.
use crate::format::{version, version_text};
use crate::names::NameSet;
use crate::nextest::AffectedTest;
use crate::text::{
    decimal, decimal_text, flat, holds, join, joined, lemma_flat_all, lemma_flat_step, texts, wrap_each,
    wrapped,
};
use vstd::prelude::*;
use vstd::string::*;

verus! {

/// The line of an affected test.
pub open spec fn test_line(t: AffectedTest) -> Seq<char> {
    "  "@ + t.name@ + " ("@ + t.file@ + ") — matches: "@ + joined(
        texts(t.matched_symbols@),
        ", "@,
    ) + "\n"@
}

/// The lines of affected tests.
pub open spec fn test_lines(s: Seq<AffectedTest>) -> Seq<Seq<char>> {
    s.map_values(|t: AffectedTest| test_line(t))
}

/// A section: its title, its size and its lines.
pub open spec fn section(title: Seq<char>, n: nat, body: Seq<char>) -> Seq<char> {
    title + " ("@ + decimal(n) + "):\n"@ + body + "\n"@
}

/// Texts as indented lines.
pub open spec fn indented(s: Seq<Seq<char>>) -> Seq<char> {
    flat(wrapped(s, "  "@, "\n"@))
}

/// What to do next.
pub open spec fn closing_line(tests: nat) -> Seq<char> {
    if tests == 0 {
        "No tests matched. Run `cargo impact --test` to get an empty filter.\n"@
    } else {
        "Run `cargo impact --test` to get a cargo-nextest filter expression.\n"@
    }
}

/// The plain report of affected tests.
pub open spec fn plain_report(
    files: Seq<Seq<char>>,
    symbols: Seq<Seq<char>>,
    tests: Seq<AffectedTest>,
) -> Seq<char> {
    "cargo-impact v"@ + version_text() + "\n\n"@ + section(
        "Changed files"@,
        files.len(),
        indented(files),
    ) + section("Candidate symbols"@, symbols.len(), indented(symbols)) + section(
        "Affected tests"@,
        tests.len(),
        flat(test_lines(tests)),
    ) + closing_line(tests.len())
}

fn make_section(title: &str, n: usize, body: &str) -> (r: String)
    ensures
        r@ == section(title@, n as nat, body@),
{
    let mut s = title.to_owned();
    s.append(" (");
    s.append(decimal_text(n as u64).as_str());
    s.append("):\n");
    s.append(body);
    s.append("\n");
    s
}

fn make_test_lines(tests: &Vec<AffectedTest>) -> (r: String)
    ensures
        r@ == flat(test_lines(tests@)),
{
    let ghost parts = test_lines(tests@);
    let mut out = String::new();
    let mut i: usize = 0;
    while i < tests.len()
        invariant
            i <= tests@.len(),
            parts == test_lines(tests@),
            out@ == flat(parts.take(i as int)),
        decreases tests@.len() - i,
    {
        let t = &tests[i];
        let mut line = "  ".to_owned();
        line.append(t.name.as_str());
        line.append(" (");
        line.append(t.file.as_str());
        line.append(") — matches: ");
        line.append(join(&t.matched_symbols, ", ").as_str());
        line.append("\n");
        proof {
            lemma_flat_step(parts, i as int);
            assert(line@ == parts[i as int]);
        }
        out.append(line.as_str());
        i = i + 1;
    }
    proof {
        lemma_flat_all(parts);
    }
    out
}

/// The plain report of affected tests.
pub fn print_text_report(
    changed_files: &Vec<String>,
    symbols: &NameSet,
    affected: &Vec<AffectedTest>,
) -> (r: String)
    ensures
        r@ == plain_report(texts(changed_files@), symbols@, affected@),
{
    let names = symbols.list();
    proof {
        assert(texts(changed_files@).len() == changed_files@.len());
        assert(texts(names@).len() == names@.len());
    }
    let mut out = "cargo-impact v".to_owned();
    out.append(version());
    out.append("\n\n");
    let files = wrap_each(changed_files, "  ", "\n");
    out.append(make_section("Changed files", changed_files.len(), files.as_str()).as_str());
    let candidates = wrap_each(names, "  ", "\n");
    out.append(make_section("Candidate symbols", names.len(), candidates.as_str()).as_str());
    let tests = make_test_lines(affected);
    out.append(make_section("Affected tests", affected.len(), tests.as_str()).as_str());
    if affected.len() == 0 {
        out.append("No tests matched. Run `cargo impact --test` to get an empty filter.\n");
    } else {
        out.append("Run `cargo impact --test` to get a cargo-nextest filter expression.\n");
    }
    out
}

/// The plain report shows every changed file, every candidate symbol and every
/// affected test with its file and what it matches, each on a line of its own.
pub proof fn plain_reports_show_everything(
    files: Seq<Seq<char>>,
    symbols: Seq<Seq<char>>,
    tests: Seq<AffectedTest>,
    i: int,
)
    ensures
        0 <= i < files.len() ==> holds(plain_report(files, symbols, tests), "  "@ + files[i] + "\n"@),
        0 <= i < symbols.len() ==> holds(
            plain_report(files, symbols, tests),
            "  "@ + symbols[i] + "\n"@,
        ),
        0 <= i < tests.len() ==> holds(plain_report(files, symbols, tests), test_line(tests[i])),
{
    broadcast use crate::text::group_holds;

    if 0 <= i < files.len() {
        let w = wrapped(files, "  "@, "\n"@);
        assert(w[i] == "  "@ + files[i] + "\n"@);
        crate::text::lemma_holds_flat(w, i, w[i]);
        assert(holds(section("Changed files"@, files.len(), indented(files)), w[i]));
    }
    if 0 <= i < symbols.len() {
        let w = wrapped(symbols, "  "@, "\n"@);
        assert(w[i] == "  "@ + symbols[i] + "\n"@);
        crate::text::lemma_holds_flat(w, i, w[i]);
        assert(holds(section("Candidate symbols"@, symbols.len(), indented(symbols)), w[i]));
    }
    if 0 <= i < tests.len() {
        let w = test_lines(tests);
        assert(w[i] == test_line(tests[i]));
        crate::text::lemma_holds_flat(w, i, w[i]);
        assert(holds(section("Affected tests"@, tests.len(), flat(w)), w[i]));
    }
}

/// The line of a test shows its name, its file and each symbol that it matches;
/// a section shows its title and its size.
pub proof fn test_lines_show_their_test(t: AffectedTest, title: Seq<char>, n: nat, body: Seq<char>)
    ensures
        holds(test_line(t), t.name@),
        holds(test_line(t), t.file@),
        forall|i: int|
            0 <= i < t.matched_symbols@.len() ==> holds(
                test_line(t),
                #[trigger] texts(t.matched_symbols@)[i],
            ),
        holds(section(title, n, body), title),
        holds(section(title, n, body), decimal(n)),
        holds(section(title, n, body), body),
{
    broadcast use crate::text::group_holds;

    let names = texts(t.matched_symbols@);
    assert forall|i: int| 0 <= i < t.matched_symbols@.len() implies holds(
        test_line(t),
        #[trigger] names[i],
    ) by {
        crate::text::lemma_holds_joined(names, ", "@, i, names[i]);
    }
}

} // verus!
