//! Markdown for a sticky pull-request comment: a collapsed section per
//! severity, tables in place of bullets, no checklist.
use crate::finding::{
    finding_views, kind_path, kind_tag, Finding, FindingView, KindView, SeverityClass,
};
use crate::format::{over, version, version_text};
use crate::summary::{
    count_severity, finding_line, group_by_severity, kind_line, ref_views,
    severities_partition_findings, severity_count, severity_group,
};
use crate::text::{
    chars_in, chars_of, decimal, decimal_text, flat, holds, join, joined, texts, wrap_each, wrapped,
};
use vstd::prelude::*;
use vstd::string::*;

verus! {

/// A character of evidence in a table cell: pipes are escaped, line feeds
/// become spaces.
pub open spec fn cell_char(c: char) -> Seq<char> {
    if c == '|' {
        "\\|"@
    } else if c == '\n' {
        " "@
    } else {
        seq![c]
    }
}

/// Evidence in a table cell.
pub open spec fn cell_text(s: Seq<char>) -> Seq<char> {
    flat(s.map_values(|c: char| cell_char(c)))
}

/// Evidence in a table cell.
pub fn escape_pipe(s: &str) -> (r: String)
    ensures
        r@ == cell_text(s@),
{
    let v = chars_of(s);
    let ghost parts = v@.map_values(|c: char| cell_char(c));
    let mut out = String::new();
    let mut i: usize = 0;
    while i < v.len()
        invariant
            i <= v@.len(),
            parts == v@.map_values(|c: char| cell_char(c)),
            out@ == flat(parts.take(i as int)),
        decreases v@.len() - i,
    {
        proof {
            crate::text::lemma_flat_step(parts, i as int);
        }
        if v[i] == '|' {
            out.append("\\|");
        } else if v[i] == '\n' {
            out.append(" ");
        } else {
            proof {
                assert(out@ + seq![v@[i as int]] =~= out@.push(v@[i as int]));
            }
            out.push(v[i]);
        }
        i = i + 1;
    }
    proof {
        crate::text::lemma_flat_all(parts);
    }
    out
}

/// The place of a finding in a table cell.
pub open spec fn cell_location(k: KindView) -> Seq<char> {
    match kind_path(k) {
        Some(p) => match kind_line(k) {
            Some(n) => "`"@ + p + ":"@ + decimal(n) + "`"@,
            None => "`"@ + p + "`"@,
        },
        None => "—"@,
    }
}

fn pr_comment_location(f: &Finding) -> (r: String)
    ensures
        r@ == cell_location(f@.kind),
{
    match f.primary_path() {
        Some(p) => {
            let mut s = "`".to_owned();
            s.append(p);
            match finding_line(f) {
                Some(n) => {
                    s.append(":");
                    s.append(decimal_text(n as u64).as_str());
                },
                None => {},
            }
            s.append("`");
            s
        },
        None => "—".to_owned(),
    }
}

/// A table row.
pub open spec fn table_row(f: FindingView) -> Seq<char> {
    "| `"@ + kind_tag(f.kind) + "` | "@ + cell_location(f.kind) + " | "@ + cell_text(f.evidence)
        + " |\n"@
}

fn render_row(f: &Finding) -> (r: String)
    ensures
        r@ == table_row(f@),
{
    let mut s = "| `".to_owned();
    s.append(f.kind.tag());
    s.append("` | ");
    s.append(pr_comment_location(f).as_str());
    s.append(" | ");
    s.append(escape_pipe(f.evidence.as_str()).as_str());
    s.append(" |\n");
    s
}

/// The plural ending for `n` things.
pub open spec fn plural(n: nat) -> Seq<char> {
    if n == 1 {
        ""@
    } else {
        "s"@
    }
}

fn plural_ending(n: usize) -> (r: &'static str)
    ensures
        r@ == plural(n as nat),
{
    if n == 1 {
        ""
    } else {
        "s"
    }
}

/// Head of the comment with its counts. It is there whatever the budget.
pub open spec fn comment_head(files: nat, s: Seq<FindingView>) -> Seq<char> {
    "### 🎯 cargo-impact — "@ + decimal(s.len()) + " findings across "@ + decimal(files)
        + " file"@ + plural(files) + "\n`🔴 "@ + decimal(severity_count(s, SeverityClass::High))
        + " · 🟡 "@ + decimal(severity_count(s, SeverityClass::Medium)) + " · 🔵 "@ + decimal(
        severity_count(s, SeverityClass::Low),
    ) + " · ⚪ "@ + decimal(severity_count(s, SeverityClass::Unknown)) + "`\n\n"@
}

/// Head of a severity section; the gravest section stands open.
pub open spec fn block_head(sev: SeverityClass, n: nat) -> Seq<char> {
    "<details"@ + (if sev == SeverityClass::High { " open"@ } else { ""@ }) + "><summary>"@
        + sev.icon_spec() + " "@ + sev.label_spec() + " ("@ + decimal(n)
        + ")</summary>\n\n| Kind | Location | Evidence |\n|---|---|---|\n"@
}

/// The rows of the first `n` findings that fit behind `used` characters, and
/// how many were left out. A row is left out when it does not fit behind the
/// rows kept before it; a shorter one behind it can still fit.
pub open spec fn kept_rows(used: nat, rows: Seq<Seq<char>>, budget: nat, n: nat) -> (
    Seq<char>,
    nat,
)
    decreases n,
{
    if n == 0 {
        (Seq::empty(), 0)
    } else {
        let before = kept_rows(used, rows, budget, (n - 1) as nat);
        let row = rows[n - 1];
        if over((used + before.0.len() + row.len()) as int, budget) {
            (before.0, before.1 + 1)
        } else {
            (before.0 + row, before.1)
        }
    }
}

/// A severity section behind a text, with the number of findings left out.
pub open spec fn with_block(
    page: (Seq<char>, nat),
    s: Seq<FindingView>,
    sev: SeverityClass,
    budget: nat,
) -> (Seq<char>, nat) {
    let group = severity_group(s, sev);
    let head = block_head(sev, group.len());
    let kept = kept_rows(
        page.0.len() + head.len(),
        group.map_values(|f: FindingView| table_row(f)),
        budget,
        group.len(),
    );
    if kept.0.len() > 0 {
        (page.0 + head + kept.0 + "\n</details>\n\n"@, page.1 + kept.1)
    } else {
        (page.0, page.1 + kept.1)
    }
}

/// All severity sections behind the head.
pub open spec fn with_blocks(head: Seq<char>, s: Seq<FindingView>, budget: nat) -> (Seq<char>, nat) {
    let high = with_block((head, 0nat), s, SeverityClass::High, budget);
    let medium = with_block(high, s, SeverityClass::Medium, budget);
    let low = with_block(medium, s, SeverityClass::Low, budget);
    with_block(low, s, SeverityClass::Unknown, budget)
}

/// The collapsed list of changed files and candidate symbols.
pub open spec fn context_block(files: Seq<Seq<char>>, symbols: Seq<Seq<char>>) -> Seq<char> {
    let list = "<details><summary>📁 "@ + decimal(files.len()) + " changed file"@ + plural(
        files.len(),
    ) + " · "@ + decimal(symbols.len()) + " candidate symbol"@ + plural(symbols.len())
        + "</summary>\n\n"@ + "**Changed files:**\n\n"@ + flat(wrapped(files, "- `"@, "`\n"@));
    let named = if symbols.len() > 0 {
        list + "\n**Candidate symbols:** "@ + joined(wrapped(symbols, "`"@, "`"@), ", "@) + "\n"@
    } else {
        list
    };
    named + "\n</details>\n"@
}

/// A text with the note on what was left out, where there is a budget and
/// something was.
pub open spec fn with_note(body: Seq<char>, omitted: nat, budget: nat) -> Seq<char> {
    if budget != 0 && omitted > 0 {
        body + "\n> ⚠ "@ + decimal(omitted) + " findings omitted to fit the `--budget="@ + decimal(
            budget,
        ) + "` cap.\n"@
    } else {
        body
    }
}

/// The comment behind its severity sections.
pub open spec fn comment_tail(
    page: (Seq<char>, nat),
    files: Seq<Seq<char>>,
    symbols: Seq<Seq<char>>,
    budget: nat,
) -> Seq<char> {
    with_note(page.0 + context_block(files, symbols), page.1, budget)
        + "\n<sub>Generated by [cargo-impact v"@ + version_text()
        + "](https://github.com/asmuelle/cargo-impact) · [full report](#) · [raw JSON](#)</sub>\n"@
}

/// The pull-request comment.
pub open spec fn comment_report(
    files: Seq<Seq<char>>,
    symbols: Seq<Seq<char>>,
    s: Seq<FindingView>,
    budget: nat,
) -> Seq<char> {
    let head = comment_head(files.len(), s);
    if s.len() == 0 {
        head + "_No findings — nothing to verify._\n"@
    } else {
        comment_tail(with_blocks(head, s, budget), files, symbols, budget)
    }
}

fn render_comment_head(changed_files: &Vec<String>, findings: &Vec<Finding>) -> (r: String)
    ensures
        r@ == comment_head(changed_files@.len(), finding_views(findings@)),
{
    let mut out = "### 🎯 cargo-impact — ".to_owned();
    out.append(decimal_text(findings.len() as u64).as_str());
    out.append(" findings across ");
    out.append(decimal_text(changed_files.len() as u64).as_str());
    out.append(" file");
    out.append(plural_ending(changed_files.len()));
    out.append("\n`🔴 ");
    out.append(decimal_text(count_severity(findings, SeverityClass::High) as u64).as_str());
    out.append(" · 🟡 ");
    out.append(decimal_text(count_severity(findings, SeverityClass::Medium) as u64).as_str());
    out.append(" · 🔵 ");
    out.append(decimal_text(count_severity(findings, SeverityClass::Low) as u64).as_str());
    out.append(" · ⚪ ");
    out.append(decimal_text(count_severity(findings, SeverityClass::Unknown) as u64).as_str());
    out.append("`\n\n");
    out
}

/// Writes one severity section, where `before` findings were left out so far.
/// Returns how many are left out now.
fn render_block(
    out: &mut String,
    findings: &Vec<Finding>,
    sev: SeverityClass,
    budget: usize,
    before: u64,
) -> (r: u64)
    requires
        before + severity_count(finding_views(findings@), sev) <= u64::MAX,
    ensures
        r <= before + severity_count(finding_views(findings@), sev),
        with_block((old(out)@, before as nat), finding_views(findings@), sev, budget as nat) == (
            final(out)@,
            r as nat,
        ),
{
    let group = group_by_severity(findings, sev);
    let ghost g = ref_views(group@);
    let ghost rows = g.map_values(|f: FindingView| table_row(f));
    let mut head = "<details".to_owned();
    head.append(if sev == SeverityClass::High { " open" } else { "" });
    head.append("><summary>");
    head.append(sev.icon());
    head.append(" ");
    head.append(sev.as_label());
    head.append(" (");
    head.append(decimal_text(group.len() as u64).as_str());
    head.append(")</summary>\n\n| Kind | Location | Evidence |\n|---|---|---|\n");
    proof {
        assert(g.len() == group@.len());
        assert(head@ == block_head(sev, g.len()));
    }
    let used = chars_in(out.as_str()) + chars_in(head.as_str());
    let mut kept = String::new();
    let mut omitted: usize = 0;
    let mut i: usize = 0;
    while i < group.len()
        invariant
            i <= group@.len(),
            g == ref_views(group@),
            rows == g.map_values(|f: FindingView| table_row(f)),
            used == out@.len() + head@.len(),
            used <= 2 * usize::MAX,
            omitted <= i,
            (kept@, omitted as nat) == kept_rows(used as nat, rows, budget as nat, i as nat),
        decreases group@.len() - i,
    {
        let row = render_row(group[i]);
        proof {
            assert(rows[i as int] == table_row(group@[i as int]@));
        }
        let grown = used + chars_in(kept.as_str()) + chars_in(row.as_str());
        if budget != 0 && grown > budget as u128 {
            omitted = omitted + 1;
        } else {
            kept.append(row.as_str());
        }
        i = i + 1;
    }
    if !kept.as_str().is_empty() {
        out.append(head.as_str());
        out.append(kept.as_str());
        out.append("\n</details>\n\n");
    }
    before + omitted as u64
}

fn render_context_block(changed_files: &Vec<String>, candidate_symbols: &Vec<String>) -> (r: String)
    ensures
        r@ == context_block(texts(changed_files@), texts(candidate_symbols@)),
{
    let mut out = "<details><summary>📁 ".to_owned();
    out.append(decimal_text(changed_files.len() as u64).as_str());
    out.append(" changed file");
    out.append(plural_ending(changed_files.len()));
    out.append(" · ");
    out.append(decimal_text(candidate_symbols.len() as u64).as_str());
    out.append(" candidate symbol");
    out.append(plural_ending(candidate_symbols.len()));
    out.append("</summary>\n\n");
    out.append("**Changed files:**\n\n");
    out.append(wrap_each(changed_files, "- `", "`\n").as_str());
    if candidate_symbols.len() > 0 {
        let mut quoted: Vec<String> = Vec::new();
        let mut i: usize = 0;
        while i < candidate_symbols.len()
            invariant
                i <= candidate_symbols@.len(),
                quoted@.len() == i,
                forall|j: int|
                    0 <= j < i ==> #[trigger] quoted@[j]@ == "`"@ + candidate_symbols@[j]@ + "`"@,
            decreases candidate_symbols@.len() - i,
        {
            let mut q = "`".to_owned();
            q.append(candidate_symbols[i].as_str());
            q.append("`");
            quoted.push(q);
            i = i + 1;
        }
        proof {
            assert(texts(quoted@) =~= wrapped(texts(candidate_symbols@), "`"@, "`"@));
        }
        out.append("\n**Candidate symbols:** ");
        out.append(join(&quoted, ", ").as_str());
        out.append("\n");
    }
    out.append("\n</details>\n");
    out
}

/// The pull-request comment, its tables held to `budget` characters where that
/// is not 0. The head is written in any case.
pub fn render_pr_comment(
    changed_files: &Vec<String>,
    candidate_symbols: &Vec<String>,
    findings: &Vec<Finding>,
    budget: usize,
) -> (r: String)
    ensures
        r@ == comment_report(
            texts(changed_files@),
            texts(candidate_symbols@),
            finding_views(findings@),
            budget as nat,
        ),
{
    let ghost views = finding_views(findings@);
    let mut out = render_comment_head(changed_files, findings);
    if findings.len() == 0 {
        out.append("_No findings — nothing to verify._\n");
        return out;
    }
    proof {
        severities_partition_findings(finding_views(findings@));
    }
    let high = render_block(&mut out, findings, SeverityClass::High, budget, 0);
    let medium = render_block(&mut out, findings, SeverityClass::Medium, budget, high);
    let low = render_block(&mut out, findings, SeverityClass::Low, budget, medium);
    let omitted = render_block(&mut out, findings, SeverityClass::Unknown, budget, low);
    out.append(render_context_block(changed_files, candidate_symbols).as_str());
    if budget != 0 && omitted > 0 {
        out.append("\n> ⚠ ");
        out.append(decimal_text(omitted).as_str());
        out.append(" findings omitted to fit the `--budget=");
        out.append(decimal_text(budget as u64).as_str());
        out.append("` cap.\n");
    }
    out.append("\n<sub>Generated by [cargo-impact v");
    out.append(version());
    out.append(
        "](https://github.com/asmuelle/cargo-impact) · [full report](#) · [raw JSON](#)</sub>\n",
    );
    out
}

/// No table cell holds a line feed, so a finding's evidence cannot end its row.
pub proof fn cells_hold_no_line_feed(s: Seq<char>)
    ensures
        !cell_text(s).contains('\n'),
    decreases s.len(),
{
    reveal_strlit("\\|");
    reveal_strlit(" ");
    if s.len() > 0 {
        let head = s.drop_last();
        cells_hold_no_line_feed(head);
        let parts = s.map_values(|c: char| cell_char(c));
        assert(parts.drop_last() =~= head.map_values(|c: char| cell_char(c)));
        let last = cell_char(s.last());
        assert(parts.last() == last);
        assert("\\|"@.len() == 2 && "\\|"@[0] == '\\' && "\\|"@[1] == '|');
        assert(" "@.len() == 1 && " "@[0] == ' ');
        assert forall|i: int| 0 <= i < cell_text(s).len() implies cell_text(s)[i] != '\n' by {
            let h = cell_text(head);
            if i < h.len() {
                assert(cell_text(s)[i] == h[i]);
            } else {
                assert(cell_text(s)[i] == last[i - h.len()]);
            }
        }
    }
}

/// `s` starts with `head`.
pub open spec fn extends(s: Seq<char>, head: Seq<char>) -> bool {
    head.len() <= s.len() && s.take(head.len() as int) == head
}

proof fn lemma_extends(s: Seq<char>, more: Seq<char>, head: Seq<char>)
    requires
        extends(s, head),
    ensures
        extends(s + more, head),
{
    assert((s + more).take(head.len() as int) =~= s.take(head.len() as int));
}

proof fn lemma_block_extends(
    page: (Seq<char>, nat),
    s: Seq<FindingView>,
    sev: SeverityClass,
    budget: nat,
    head: Seq<char>,
)
    requires
        extends(page.0, head),
    ensures
        extends(with_block(page, s, sev, budget).0, head),
{
    let group = severity_group(s, sev);
    let bh = block_head(sev, group.len());
    let kept = kept_rows(
        page.0.len() + bh.len(),
        group.map_values(|f: FindingView| table_row(f)),
        budget,
        group.len(),
    );
    lemma_extends(page.0, bh, head);
    lemma_extends(page.0 + bh, kept.0, head);
    lemma_extends(page.0 + bh + kept.0, "\n</details>\n\n"@, head);
}

/// Whatever the budget, the comment starts with its head.
pub proof fn comment_head_survives_every_budget(
    files: Seq<Seq<char>>,
    symbols: Seq<Seq<char>>,
    s: Seq<FindingView>,
    budget: nat,
)
    ensures
        extends(comment_report(files, symbols, s, budget), comment_head(files.len(), s)),
{
    let head = comment_head(files.len(), s);
    assert(head.take(head.len() as int) =~= head);
    if s.len() == 0 {
        lemma_extends(head, "_No findings — nothing to verify._\n"@, head);
    } else {
        let high = with_block((head, 0nat), s, SeverityClass::High, budget);
        let medium = with_block(high, s, SeverityClass::Medium, budget);
        let low = with_block(medium, s, SeverityClass::Low, budget);
        let page = with_block(low, s, SeverityClass::Unknown, budget);
        lemma_block_extends((head, 0nat), s, SeverityClass::High, budget, head);
        lemma_block_extends(high, s, SeverityClass::Medium, budget, head);
        lemma_block_extends(medium, s, SeverityClass::Low, budget, head);
        lemma_block_extends(low, s, SeverityClass::Unknown, budget, head);
        lemma_comment_tail_extends(page, files, symbols, budget, head);
    }
}

proof fn lemma_comment_tail_extends(
    page: (Seq<char>, nat),
    files: Seq<Seq<char>>,
    symbols: Seq<Seq<char>>,
    budget: nat,
    head: Seq<char>,
)
    requires
        extends(page.0, head),
    ensures
        extends(comment_tail(page, files, symbols, budget), head),
{
    let body = page.0 + context_block(files, symbols);
    lemma_extends(page.0, context_block(files, symbols), head);
    lemma_extends(body, "\n> ⚠ "@, head);
    lemma_extends(body + "\n> ⚠ "@, decimal(page.1), head);
    let a = body + "\n> ⚠ "@ + decimal(page.1);
    lemma_extends(a, " findings omitted to fit the `--budget="@, head);
    let b = a + " findings omitted to fit the `--budget="@;
    lemma_extends(b, decimal(budget), head);
    lemma_extends(b + decimal(budget), "` cap.\n"@, head);
    let noted = with_note(body, page.1, budget);
    lemma_extends(noted, "\n<sub>Generated by [cargo-impact v"@, head);
    let c = noted + "\n<sub>Generated by [cargo-impact v"@;
    lemma_extends(c, version_text(), head);
    lemma_extends(
        c + version_text(),
        "](https://github.com/asmuelle/cargo-impact) · [full report](#) · [raw JSON](#)</sub>\n"@,
        head,
    );
}

/// The places of the rows that are kept among the first `n`.
pub open spec fn kept_places(used: nat, rows: Seq<Seq<char>>, budget: nat, n: nat) -> Seq<int>
    decreases n,
{
    if n == 0 {
        Seq::empty()
    } else {
        let before = kept_places(used, rows, budget, (n - 1) as nat);
        if row_fits(used, rows, budget, n - 1) {
            before.push(n - 1)
        } else {
            before
        }
    }
}

/// Whether a row fits behind the rows kept before it.
pub open spec fn row_fits(used: nat, rows: Seq<Seq<char>>, budget: nat, i: int) -> bool {
    !over((used + kept_rows(used, rows, budget, i as nat).0.len() + rows[i].len()) as int, budget)
}

/// Every row is kept in its turn or counted as left out: the text holds the
/// rows at the kept places, in order, and these are the places of the rows that
/// fit.
pub proof fn rows_are_kept_or_counted(used: nat, rows: Seq<Seq<char>>, budget: nat, n: nat)
    requires
        n <= rows.len(),
    ensures
        ({
            let kept = kept_rows(used, rows, budget, n);
            let places = kept_places(used, rows, budget, n);
            &&& places.len() + kept.1 == n
            &&& kept.0 == flat(places.map_values(|i: int| rows[i]))
            &&& forall|a: int| 0 <= a < places.len() ==> 0 <= #[trigger] places[a] < n
            &&& forall|a: int, b: int|
                #![trigger places[a], places[b]]
                0 <= a < b < places.len() ==> places[a] < places[b]
            &&& forall|i: int|
                0 <= i < n ==> (#[trigger] places.contains(i) <==> row_fits(used, rows, budget, i))
        }),
    decreases n,
{
    let places = kept_places(used, rows, budget, n);
    let f = |i: int| rows[i];
    if n > 0 {
        let m = (n - 1) as nat;
        rows_are_kept_or_counted(used, rows, budget, m);
        let before = kept_places(used, rows, budget, m);
        if row_fits(used, rows, budget, n - 1) {
            assert(places.map_values(f).drop_last() =~= before.map_values(f));
            assert(places.map_values(f).last() == rows[n - 1]);
            assert(places[before.len() as int] == n - 1);
            assert forall|i: int| 0 <= i < n implies (#[trigger] places.contains(i) <==> row_fits(
                used,
                rows,
                budget,
                i,
            )) by {
                if i < n - 1 {
                    assert(places.contains(i) <==> before.contains(i)) by {
                        if before.contains(i) {
                            let a = before.index_of(i);
                            assert(places[a] == i);
                        }
                    }
                }
            }
        } else {
            assert(!before.contains(n - 1));
        }
    } else {
        assert(places.map_values(f) =~= Seq::empty());
    }
}

/// The rows of a section that are kept stay within a budget.
pub proof fn kept_rows_stay_within_budget(used: nat, rows: Seq<Seq<char>>, budget: nat, n: nat)
    requires
        n <= rows.len(),
        budget != 0,
    ensures
        kept_rows(used, rows, budget, n).0.len() > 0 ==> used + kept_rows(
            used,
            rows,
            budget,
            n,
        ).0.len() <= budget,
    decreases n,
{
    if n > 0 {
        kept_rows_stay_within_budget(used, rows, budget, (n - 1) as nat);
    }
}

/// A severity section holds the rows that are kept, between its head and its
/// end, or nothing at all, and every other finding of the severity is counted
/// as left out.
pub proof fn findings_are_listed_or_counted(
    page: (Seq<char>, nat),
    s: Seq<FindingView>,
    sev: SeverityClass,
    budget: nat,
)
    ensures
        ({
            let group = severity_group(s, sev);
            let rows = group.map_values(|f: FindingView| table_row(f));
            let head = block_head(sev, group.len());
            let places = kept_places(page.0.len() + head.len(), rows, budget, group.len());
            let behind = with_block(page, s, sev, budget);
            &&& behind.1 + places.len() == page.1 + group.len()
            &&& behind.0 == (if places.len() == 0 {
                page.0
            } else {
                page.0 + head + flat(places.map_values(|i: int| rows[i])) + "\n</details>\n\n"@
            })
        }),
{
    let group = severity_group(s, sev);
    let rows = group.map_values(|f: FindingView| table_row(f));
    let head = block_head(sev, group.len());
    let used = page.0.len() + head.len();
    let places = kept_places(used, rows, budget, group.len());
    let f = |i: int| rows[i];
    rows_are_kept_or_counted(used, rows, budget, group.len());
    if places.len() == 0 {
        assert(places.map_values(f) =~= Seq::empty());
    } else {
        let last = places[places.len() - 1];
        lemma_row_is_some(group[last]);
        assert(places.map_values(f).last() == rows[last]);
        assert(flat(places.map_values(f)).len() >= rows[last].len());
    }
}

/// A row is never empty.
proof fn lemma_row_is_some(f: FindingView)
    ensures
        table_row(f).len() > 0,
{
    reveal_strlit("| `");
    assert("| `"@.len() == 3);
}

/// Without a budget every finding has its row.
pub proof fn unlimited_comments_list_everything(head: Seq<char>, s: Seq<FindingView>)
    ensures
        with_blocks(head, s, 0).1 == 0,
{
    let high = with_block((head, 0nat), s, SeverityClass::High, 0);
    let medium = with_block(high, s, SeverityClass::Medium, 0);
    let low = with_block(medium, s, SeverityClass::Low, 0);
    lemma_unlimited_block((head, 0nat), s, SeverityClass::High);
    lemma_unlimited_block(high, s, SeverityClass::Medium);
    lemma_unlimited_block(medium, s, SeverityClass::Low);
    lemma_unlimited_block(low, s, SeverityClass::Unknown);
}

proof fn lemma_unlimited_block(page: (Seq<char>, nat), s: Seq<FindingView>, sev: SeverityClass)
    ensures
        with_block(page, s, sev, 0).1 == page.1,
{
    let group = severity_group(s, sev);
    let head = block_head(sev, group.len());
    lemma_unlimited_rows(
        page.0.len() + head.len(),
        group.map_values(|f: FindingView| table_row(f)),
        group.len(),
    );
}

proof fn lemma_unlimited_rows(used: nat, rows: Seq<Seq<char>>, n: nat)
    ensures
        kept_rows(used, rows, 0, n).1 == 0,
    decreases n,
{
    if n > 0 {
        lemma_unlimited_rows(used, rows, (n - 1) as nat);
    }
}

/// Evidence goes into a cell character by character: a pipe with a back slash
/// before it, a line feed as a space, and every other character as it is.
pub proof fn cells_are_written_character_by_character(a: Seq<char>, b: Seq<char>, c: char)
    ensures
        cell_text(a + b) == cell_text(a) + cell_text(b),
        c == '|' ==> cell_text(seq![c]) == seq!['\\', '|'],
        c == '\n' ==> cell_text(seq![c]) == seq![' '],
        c != '|' && c != '\n' ==> cell_text(seq![c]) == seq![c],
        cell_text(Seq::empty()).len() == 0,
    decreases b.len(),
{
    let g = |c: char| cell_char(c);
    reveal_strlit("\\|");
    reveal_strlit(" ");
    assert("\\|"@ =~= seq!['\\', '|']);
    assert(" "@ =~= seq![' ']);
    let one = seq![c].map_values(g);
    assert(one.drop_last() =~= Seq::empty());
    assert(one.last() == cell_char(c));
    assert(flat(one.drop_last()) =~= Seq::empty());
    assert(flat(one) =~= cell_char(c));
    if b.len() > 0 {
        let m = (a + b).map_values(g);
        assert(m.drop_last() =~= (a + b.drop_last()).map_values(g));
        assert(m.last() == g(b.last()));
        assert(b.map_values(g).drop_last() =~= b.drop_last().map_values(g));
        assert(b.map_values(g).last() == g(b.last()));
        cells_are_written_character_by_character(a, b.drop_last(), c);
        assert(cell_text(a + b) =~= cell_text(a) + cell_text(b));
    } else {
        assert(a + b =~= a);
        assert(cell_text(b) =~= Seq::empty());
        assert(cell_text(a) + cell_text(b) =~= cell_text(a));
    }
}

/// The row of a finding shows its tag, its place with the line where it has one,
/// and its evidence.
pub proof fn rows_show_their_finding(f: FindingView)
    ensures
        holds(table_row(f), kind_tag(f.kind)),
        holds(table_row(f), cell_location(f.kind)),
        holds(table_row(f), cell_text(f.evidence)),
        kind_path(f.kind) matches Some(p) ==> holds(cell_location(f.kind), p),
        kind_path(f.kind) is Some ==> (kind_line(f.kind) matches Some(n) ==> holds(
            cell_location(f.kind),
            decimal(n),
        )),
{
    broadcast use crate::text::group_holds;

}

proof fn lemma_block_holds(
    page: (Seq<char>, nat),
    s: Seq<FindingView>,
    sev: SeverityClass,
    i: int,
    part: Seq<char>,
)
    requires
        0 <= i < s.len(),
        part == table_row(s[i]),
    ensures
        s[i].severity == sev ==> holds(with_block(page, s, sev, 0).0, part),
        holds(page.0, part) ==> holds(with_block(page, s, sev, 0).0, part),
{
    broadcast use crate::text::group_holds;

    let group = severity_group(s, sev);
    let rows = group.map_values(|f: FindingView| table_row(f));
    let head = block_head(sev, group.len());
    let used = page.0.len() + head.len();
    if s[i].severity == sev {
        assert(s.contains(s[i]));
        crate::order::lemma_filter_member(s, |f: FindingView| f.severity == sev, s[i]);
        let k = group.index_of(s[i]);
        assert(rows[k] == part);
        lemma_all_rows(used, rows, group.len());
        assert(rows.take(group.len() as int) =~= rows);
        crate::text::lemma_holds_flat(rows, k, part);
        lemma_row_is_some(s[i]);
        let kept = kept_rows(used, rows, 0, group.len());
        assert(holds(kept.0, part));
        assert(kept.0.len() > 0) by {
            let (a, b) = choose|a: Seq<char>, b: Seq<char>| kept.0 == #[trigger] (a + part + b);
            assert(kept.0.len() == a.len() + part.len() + b.len());
        }
    }
}

proof fn lemma_all_rows(used: nat, rows: Seq<Seq<char>>, n: nat)
    requires
        n <= rows.len(),
    ensures
        kept_rows(used, rows, 0, n).0 == flat(rows.take(n as int)),
    decreases n,
{
    if n > 0 {
        lemma_all_rows(used, rows, (n - 1) as nat);
        crate::text::lemma_flat_step(rows, n - 1);
    }
}

/// Without a budget a comment shows the row of every finding.
pub proof fn unlimited_comments_show_every_finding(
    files: Seq<Seq<char>>,
    symbols: Seq<Seq<char>>,
    s: Seq<FindingView>,
    i: int,
)
    requires
        0 <= i < s.len(),
    ensures
        holds(comment_report(files, symbols, s, 0), table_row(s[i])),
{
    let head = comment_head(files.len(), s);
    let row = table_row(s[i]);
    let high = with_block((head, 0nat), s, SeverityClass::High, 0);
    let medium = with_block(high, s, SeverityClass::Medium, 0);
    let low = with_block(medium, s, SeverityClass::Low, 0);
    lemma_block_holds((head, 0nat), s, SeverityClass::High, i, row);
    lemma_block_holds(high, s, SeverityClass::Medium, i, row);
    lemma_block_holds(medium, s, SeverityClass::Low, i, row);
    lemma_block_holds(low, s, SeverityClass::Unknown, i, row);
    lemma_tail_holds(with_blocks(head, s, 0), files, symbols, 0, row);
}

proof fn lemma_tail_holds(
    page: (Seq<char>, nat),
    files: Seq<Seq<char>>,
    symbols: Seq<Seq<char>>,
    budget: nat,
    part: Seq<char>,
)
    requires
        holds(page.0, part) || holds(context_block(files, symbols), part),
    ensures
        holds(comment_tail(page, files, symbols, budget), part),
{
    broadcast use crate::text::group_holds;

    let body = page.0 + context_block(files, symbols);
    assert(holds(body, part));
    assert(holds(with_note(body, page.1, budget), part));
}

/// Whatever the budget, a comment on findings shows every changed file and every
/// candidate symbol.
pub proof fn comments_show_files_and_symbols(
    files: Seq<Seq<char>>,
    symbols: Seq<Seq<char>>,
    s: Seq<FindingView>,
    budget: nat,
    i: int,
)
    requires
        s.len() > 0,
    ensures
        0 <= i < files.len() ==> holds(
            comment_report(files, symbols, s, budget),
            "- `"@ + files[i] + "`\n"@,
        ),
        0 <= i < symbols.len() ==> holds(
            comment_report(files, symbols, s, budget),
            "`"@ + symbols[i] + "`"@,
        ),
{
    let page = with_blocks(comment_head(files.len(), s), s, budget);
    if 0 <= i < files.len() {
        let w = wrapped(files, "- `"@, "`\n"@);
        assert(w[i] == "- `"@ + files[i] + "`\n"@);
        assert(holds(context_block(files, symbols), w[i])) by {
            broadcast use crate::text::group_holds;

            crate::text::lemma_holds_flat(w, i, w[i]);
        }
        lemma_tail_holds(page, files, symbols, budget, w[i]);
    }
    if 0 <= i < symbols.len() {
        let w = wrapped(symbols, "`"@, "`"@);
        assert(w[i] == "`"@ + symbols[i] + "`"@);
        assert(holds(context_block(files, symbols), w[i])) by {
            broadcast use crate::text::group_holds;

            crate::text::lemma_holds_joined(w, ", "@, i, w[i]);
        }
        lemma_tail_holds(page, files, symbols, budget, w[i]);
    }
}

/// A comment that leaves findings out says how many.
pub proof fn truncated_comments_say_so(body: Seq<char>, omitted: nat, budget: nat)
    requires
        budget != 0,
        omitted > 0,
    ensures
        holds(with_note(body, omitted, budget), decimal(omitted) + " findings omitted"@),
        holds(with_note(body, omitted, budget), decimal(budget)),
        holds(with_note(body, omitted, budget), body),
{
    broadcast use crate::text::group_holds;

    let words = decimal(omitted) + " findings omitted"@;
    let rest = " to fit the `--budget="@ + decimal(budget) + "` cap.\n"@;
    reveal_strlit(" findings omitted");
    reveal_strlit(" to fit the `--budget=");
    reveal_strlit(" findings omitted to fit the `--budget=");
    assert(" findings omitted to fit the `--budget="@ =~= " findings omitted"@
        + " to fit the `--budget="@);
    let whole = (body + "\n> ⚠ "@) + words + rest;
    assert(with_note(body, omitted, budget) =~= whole);
    assert(holds(whole, words));
}

/// One thing is counted without a plural ending, any other number with one.
pub proof fn plurals_follow_the_number(n: nat)
    ensures
        n == 1 ==> plural(n).len() == 0,
        n != 1 ==> plural(n) == seq!['s'],
{
    reveal_strlit("");
    reveal_strlit("s");
    assert("s"@ =~= seq!['s']);
}

/// The collapsed list counts the files and the symbols; it names symbols just
/// where there are some.
pub proof fn context_blocks_count_files_and_symbols(files: Seq<Seq<char>>, symbols: Seq<Seq<char>>)
    ensures
        holds(context_block(files, symbols), decimal(files.len()) + " changed file"@),
        holds(context_block(files, symbols), decimal(symbols.len()) + " candidate symbol"@),
        symbols.len() > 0 ==> holds(context_block(files, symbols), "**Candidate symbols:**"@),
        symbols.len() == 0 ==> context_block(files, symbols) == "<details><summary>📁 "@ + decimal(
            files.len(),
        ) + " changed file"@ + plural(files.len()) + " · "@ + decimal(0) + " candidate symbol"@
            + plural(0) + "</summary>\n\n"@ + "**Changed files:**\n\n"@ + flat(
            wrapped(files, "- `"@, "`\n"@),
        ) + "\n</details>\n"@,
{
    broadcast use crate::text::group_holds;

    let a = decimal(files.len()) + " changed file"@;
    let b = decimal(symbols.len()) + " candidate symbol"@;
    let front = "<details><summary>📁 "@ + a + plural(files.len()) + " · "@ + b;
    let list = front + plural(symbols.len()) + "</summary>\n\n"@ + "**Changed files:**\n\n"@
        + flat(wrapped(files, "- `"@, "`\n"@));
    assert(holds(front, a));
    assert(holds(front, b));
    assert(holds(list, a));
    assert(holds(list, b));
    assert("<details><summary>📁 "@ + decimal(files.len()) + " changed file"@ + plural(files.len())
        + " · "@ + decimal(symbols.len()) + " candidate symbol"@ =~= front);
    if symbols.len() > 0 {
        let title = "**Candidate symbols:**"@;
        reveal_strlit("\n");
        reveal_strlit(" ");
        reveal_strlit("**Candidate symbols:**");
        reveal_strlit("\n**Candidate symbols:** ");
        assert("\n**Candidate symbols:** "@ =~= "\n"@ + title + " "@);
        let names = joined(wrapped(symbols, "`"@, "`"@), ", "@);
        assert(context_block(files, symbols) == list + ("\n"@ + title + " "@) + names + "\n"@
            + "\n</details>\n"@);
    } else {
        assert(context_block(files, symbols) == list + "\n</details>\n"@);
    }
}

} // verus!
