//! Output formats: text, markdown and JSON, with dispatch to SARIF and the
//! pull-request comment.
//!
//! The JSON envelope is stable. Markdown is meant to be pasted into a chat
//! window: it leads with a summary, lists findings by severity, and can be held
//! to a budget of characters.
use crate::finding::{
    count_tier, finding_json, finding_views, member, tier_count, Finding, FindingView,
    SeverityClass, Tier,
};
use crate::json::{
    hundredths, hundredths_text, json_count, json_list, json_object, json_string, json_strings,
    json_view, json_views, member_views, pretty_text, print_pretty, text_list, JsonView,
};
use crate::pr_comment::{comment_report, render_pr_comment};
use crate::sarif::{render_sarif, sarif_json};
use crate::summary::{
    count_severity, finding_summary, group_by_severity, kind_summary, ref_views,
    severities_partition_findings, severity_count, severity_entries, severity_group,
    tally_severities,
};
use crate::text::{
    chars_in, decimal, decimal_text, flat, holds, lemma_filter_step, lemma_flat_step, texts,
    wrap_each, wrapped,
};
use vstd::prelude::*;
use vstd::string::*;

verus! {

/// Output format of a report.
#[derive(Debug, Clone, Copy, PartialEq, Eq, Structural)]
pub enum Format {
    Text,
    Markdown,
    Json,
    /// SARIF, which code-scanning interfaces consume.
    Sarif,
    /// Markdown for pull-request comments: collapsed sections, tables, no
    /// checklist.
    PrComment,
}

impl Default for Format {
    fn default() -> (r: Format)
        ensures
            r == Format::Text,
    {
        Format::Text
    }
}

/// Version of the tool.
pub open spec fn version_text() -> Seq<char> {
    "0.4.0"@
}

/// Version of the tool.
pub fn version() -> (r: &'static str)
    ensures
        r@ == version_text(),
{
    "0.4.0"
}

// ---------------------------------------------------------------------------
// Text
// ---------------------------------------------------------------------------

/// One finding in the text report.
pub open spec fn text_line(f: FindingView) -> Seq<char> {
    "  ["@ + f.id + "] "@ + kind_summary(f.kind) + " · "@ + f.tier.title_spec() + " "@
        + hundredths_text(f.confidence) + "\n"@
}

/// One severity in the text report; it is there even when it is empty.
pub open spec fn text_bucket(s: Seq<FindingView>, sev: SeverityClass) -> Seq<char> {
    let group = severity_group(s, sev);
    sev.icon_spec() + " "@ + sev.label_spec() + " ("@ + decimal(group.len()) + ")\n"@ + flat(
        group.map_values(|f: FindingView| text_line(f)),
    ) + "\n"@
}

/// The text report.
pub open spec fn text_report(
    files: Seq<Seq<char>>,
    symbols: Seq<Seq<char>>,
    s: Seq<FindingView>,
) -> Seq<char> {
    "cargo-impact v"@ + version_text() + "\n\n"@ + "Changed files ("@ + decimal(files.len())
        + "):\n"@ + flat(wrapped(files, "  "@, "\n"@)) + "\n"@ + "Candidate symbols ("@ + decimal(
        symbols.len(),
    ) + "):\n"@ + flat(wrapped(symbols, "  "@, "\n"@)) + "\n"@ + text_bucket(s, SeverityClass::High)
        + text_bucket(s, SeverityClass::Medium) + text_bucket(s, SeverityClass::Low) + text_bucket(
        s,
        SeverityClass::Unknown,
    )
}

fn render_text_line(f: &Finding) -> (r: String)
    ensures
        r@ == text_line(f@),
{
    let mut s = "  [".to_owned();
    s.append(f.id.as_str());
    s.append("] ");
    s.append(finding_summary(f).as_str());
    s.append(" · ");
    s.append(f.tier.title());
    s.append(" ");
    s.append(hundredths(f.confidence).as_str());
    s.append("\n");
    s
}

fn render_text_bucket(findings: &Vec<Finding>, sev: SeverityClass) -> (r: String)
    ensures
        r@ == text_bucket(finding_views(findings@), sev),
{
    let group = group_by_severity(findings, sev);
    let ghost g = ref_views(group@);
    let ghost parts = g.map_values(|f: FindingView| text_line(f));
    let mut lines = String::new();
    let mut i: usize = 0;
    while i < group.len()
        invariant
            i <= group@.len(),
            g == ref_views(group@),
            parts == g.map_values(|f: FindingView| text_line(f)),
            lines@ == flat(parts.take(i as int)),
        decreases group@.len() - i,
    {
        proof {
            crate::text::lemma_flat_step(parts, i as int);
            assert(parts[i as int] == text_line(group@[i as int]@));
        }
        lines.append(render_text_line(group[i]).as_str());
        i = i + 1;
    }
    proof {
        crate::text::lemma_flat_all(parts);
        assert(g.len() == group@.len());
    }
    let mut s = sev.icon().to_owned();
    s.append(" ");
    s.append(sev.as_label());
    s.append(" (");
    s.append(decimal_text(group.len() as u64).as_str());
    s.append(")\n");
    s.append(lines.as_str());
    s.append("\n");
    s
}

/// The text report: changed files, candidate symbols, then every severity.
pub fn render_text(
    changed_files: &Vec<String>,
    candidate_symbols: &Vec<String>,
    findings: &Vec<Finding>,
) -> (r: String)
    ensures
        r@ == text_report(
            texts(changed_files@),
            texts(candidate_symbols@),
            finding_views(findings@),
        ),
{
    let mut out = "cargo-impact v".to_owned();
    out.append(version());
    out.append("\n\n");
    out.append("Changed files (");
    out.append(decimal_text(changed_files.len() as u64).as_str());
    out.append("):\n");
    out.append(wrap_each(changed_files, "  ", "\n").as_str());
    out.append("\n");
    out.append("Candidate symbols (");
    out.append(decimal_text(candidate_symbols.len() as u64).as_str());
    out.append("):\n");
    out.append(wrap_each(candidate_symbols, "  ", "\n").as_str());
    out.append("\n");
    out.append(render_text_bucket(findings, SeverityClass::High).as_str());
    out.append(render_text_bucket(findings, SeverityClass::Medium).as_str());
    out.append(render_text_bucket(findings, SeverityClass::Low).as_str());
    out.append(render_text_bucket(findings, SeverityClass::Unknown).as_str());
    out
}

// ---------------------------------------------------------------------------
// Markdown
// ---------------------------------------------------------------------------

/// Head of the markdown report. It is there whatever the budget.
pub open spec fn markdown_head(files: nat, symbols: nat, s: Seq<FindingView>) -> Seq<char> {
    "# cargo-impact v"@ + version_text() + " blast radius\n\n"@ + "## Summary\n\n"@
        + "- **Changed files:** "@ + decimal(files) + "\n- **Candidate symbols:** "@ + decimal(
        symbols,
    ) + "\n- **Findings:** "@ + decimal(s.len()) + " ("@ + decimal(
        severity_count(s, SeverityClass::High),
    ) + " high, "@ + decimal(severity_count(s, SeverityClass::Medium)) + " medium, "@ + decimal(
        severity_count(s, SeverityClass::Low),
    ) + " low, "@ + decimal(severity_count(s, SeverityClass::Unknown)) + " unknown)\n\n"@
}

/// One finding in the markdown report.
pub open spec fn markdown_bullet(f: FindingView) -> Seq<char> {
    let line = "- **["@ + f.id + "]** "@ + kind_summary(f.kind) + " — *"@ + f.tier.title_spec()
        + " "@ + hundredths_text(f.confidence) + "* — "@ + f.evidence + "\n"@;
    match f.suggested_action {
        Some(a) => line + "  - Suggested: `"@ + a + "`\n"@,
        None => line,
    }
}

/// One finding in the checklist.
pub open spec fn checklist_line(f: FindingView) -> Seq<char> {
    "- [ ] **"@ + f.severity.label_spec() + "** "@ + kind_summary(f.kind) + " — *"@
        + f.tier.title_spec() + " "@ + hundredths_text(f.confidence) + "*\n"@
}

/// Head of a severity section.
pub open spec fn section_head(sev: SeverityClass, n: nat) -> Seq<char> {
    "## "@ + sev.icon_spec() + " "@ + sev.label_spec() + " ("@ + decimal(n) + ")\n\n"@
}

/// Head of the checklist.
pub open spec fn checklist_head() -> Seq<char> {
    "## Verification checklist\n\n"@
}

/// Whether a text of `n` characters is over the budget. Budget 0 has no limit.
pub open spec fn over(n: int, budget: nat) -> bool {
    budget != 0 && n > budget
}

/// A page that is being filled: its text, whether the head of the current
/// section is written, and how many items were left out.
pub struct Page {
    pub text: Seq<char>,
    pub open: bool,
    pub omitted: nat,
}

/// The page after the first `n` items of a section. The head is written with
/// the first item. An item is left out when it does not fit or when an earlier
/// one was left out, be it in this section or, where the page is `closed`, in
/// one before it.
pub open spec fn filled(
    text: Seq<char>,
    head: Seq<char>,
    items: Seq<Seq<char>>,
    budget: nat,
    closed: bool,
    n: nat,
) -> Page
    decreases n,
{
    if n == 0 {
        Page { text, open: false, omitted: 0 }
    } else {
        let page = filled(text, head, items, budget, closed, (n - 1) as nat);
        let item = items[n - 1];
        let grown = if page.open {
            page.text + item
        } else {
            page.text + head + item
        };
        if closed || page.omitted > 0 || over(grown.len() as int, budget) {
            Page { text: page.text, open: page.open, omitted: page.omitted + 1 }
        } else {
            Page { text: grown, open: true, omitted: page.omitted }
        }
    }
}

/// A severity section on a page, with the items left out so far. Once one was
/// left out, no more are written.
pub open spec fn with_section(
    page: (Seq<char>, nat),
    s: Seq<FindingView>,
    sev: SeverityClass,
    budget: nat,
) -> (Seq<char>, nat) {
    let group = severity_group(s, sev);
    let p = filled(
        page.0,
        section_head(sev, group.len()),
        group.map_values(|f: FindingView| markdown_bullet(f)),
        budget,
        page.1 > 0,
        group.len(),
    );
    (if p.open { p.text + "\n"@ } else { p.text }, page.1 + p.omitted)
}

/// The page with all severity sections, and the number of findings left out.
pub open spec fn with_sections(head: Seq<char>, s: Seq<FindingView>, budget: nat) -> (
    Seq<char>,
    nat,
) {
    let high = with_section((head, 0nat), s, SeverityClass::High, budget);
    let medium = with_section(high, s, SeverityClass::Medium, budget);
    let low = with_section(medium, s, SeverityClass::Low, budget);
    with_section(low, s, SeverityClass::Unknown, budget)
}

/// The page with the checklist, and the number of checklist items left out.
pub open spec fn with_checklist(text: Seq<char>, s: Seq<FindingView>, budget: nat) -> (
    Seq<char>,
    nat,
) {
    if s.len() == 0 {
        (text + checklist_head() + "_No findings — nothing to verify._\n"@, 0)
    } else {
        let p = filled(
            text,
            checklist_head(),
            s.map_values(|f: FindingView| checklist_line(f)),
            budget,
            false,
            s.len(),
        );
        (p.text, p.omitted)
    }
}

/// Footer that says what was left out.
pub open spec fn truncation_note(findings: nat, items: nat, budget: nat) -> Seq<char> {
    "\n---\n\n> **Budget truncation:** "@ + decimal(findings) + " findings and "@ + decimal(items)
        + " checklist items omitted because the rendered markdown would exceed the `--budget="@
        + decimal(budget)
        + "` character limit. Priority order was severity → tier → confidence, so what you see is what matters most. Re-run with `--budget=0` or `--format=json` to get everything.\n"@
}

/// The markdown report.
pub open spec fn markdown_report(
    files: nat,
    symbols: nat,
    s: Seq<FindingView>,
    budget: nat,
) -> Seq<char> {
    let sections = with_sections(markdown_head(files, symbols, s), s, budget);
    let page = with_checklist(sections.0, s, budget);
    if budget != 0 && (sections.1 > 0 || page.1 > 0) {
        page.0 + truncation_note(sections.1, page.1, budget)
    } else {
        page.0
    }
}

fn render_markdown_header(
    changed_files: &Vec<String>,
    candidate_symbols: &Vec<String>,
    findings: &Vec<Finding>,
) -> (r: String)
    ensures
        r@ == markdown_head(
            changed_files@.len(),
            candidate_symbols@.len(),
            finding_views(findings@),
        ),
{
    let mut out = "# cargo-impact v".to_owned();
    out.append(version());
    out.append(" blast radius\n\n");
    out.append("## Summary\n\n");
    out.append("- **Changed files:** ");
    out.append(decimal_text(changed_files.len() as u64).as_str());
    out.append("\n- **Candidate symbols:** ");
    out.append(decimal_text(candidate_symbols.len() as u64).as_str());
    out.append("\n- **Findings:** ");
    out.append(decimal_text(findings.len() as u64).as_str());
    out.append(" (");
    out.append(decimal_text(count_severity(findings, SeverityClass::High) as u64).as_str());
    out.append(" high, ");
    out.append(decimal_text(count_severity(findings, SeverityClass::Medium) as u64).as_str());
    out.append(" medium, ");
    out.append(decimal_text(count_severity(findings, SeverityClass::Low) as u64).as_str());
    out.append(" low, ");
    out.append(decimal_text(count_severity(findings, SeverityClass::Unknown) as u64).as_str());
    out.append(" unknown)\n\n");
    out
}

fn render_finding_bullet(f: &Finding) -> (r: String)
    ensures
        r@ == markdown_bullet(f@),
{
    let mut s = "- **[".to_owned();
    s.append(f.id.as_str());
    s.append("]** ");
    s.append(finding_summary(f).as_str());
    s.append(" — *");
    s.append(f.tier.title());
    s.append(" ");
    s.append(hundredths(f.confidence).as_str());
    s.append("* — ");
    s.append(f.evidence.as_str());
    s.append("\n");
    match &f.suggested_action {
        Some(a) => {
            s.append("  - Suggested: `");
            s.append(a.as_str());
            s.append("`\n");
        },
        None => {},
    }
    s
}

fn render_checklist_line(f: &Finding) -> (r: String)
    ensures
        r@ == checklist_line(f@),
{
    let mut s = "- [ ] **".to_owned();
    s.append(f.severity.as_label());
    s.append("** ");
    s.append(finding_summary(f).as_str());
    s.append(" — *");
    s.append(f.tier.title());
    s.append(" ");
    s.append(hundredths(f.confidence).as_str());
    s.append("*\n");
    s
}

/// Fills a section of a page. Returns whether its head was written and how
/// many items were left out.
fn fill(out: &mut String, head: &str, items: &Vec<String>, budget: usize, closed: bool) -> (r: (
    bool,
    usize,
))
    ensures
        ({
            let p = filled(
                old(out)@,
                head@,
                texts(items@),
                budget as nat,
                closed,
                items@.len(),
            );
            final(out)@ == p.text && r.0 == p.open && r.1 == p.omitted
        }),
        r.1 <= items@.len(),
{
    let ghost start = out@;
    let ghost t = texts(items@);
    let mut open: bool = false;
    let mut omitted: usize = 0;
    let head_len = chars_in(head);
    let mut i: usize = 0;
    while i < items.len()
        invariant
            i <= items@.len(),
            t == texts(items@),
            head_len == head@.len(),
            head_len <= usize::MAX,
            omitted <= i,
            ({
                let p = filled(start, head@, t, budget as nat, closed, i as nat);
                out@ == p.text && open == p.open && omitted == p.omitted
            }),
        decreases items@.len() - i,
    {
        let item_len = chars_in(items[i].as_str());
        let len = chars_in(out.as_str());
        proof {
            assert(t[i as int] == items@[i as int]@);
        }
        let grown = if open {
            len + item_len
        } else {
            len + head_len + item_len
        };
        if closed || omitted > 0 || (budget != 0 && grown > budget as u128) {
            omitted = omitted + 1;
        } else {
            if !open {
                out.append(head);
                open = true;
            }
            out.append(items[i].as_str());
        }
        i = i + 1;
    }
    (open, omitted)
}

/// Writes one severity section, where `before` findings were left out so far.
/// Returns how many are left out now.
fn render_section(
    out: &mut String,
    findings: &Vec<Finding>,
    sev: SeverityClass,
    budget: usize,
    before: u64,
) -> (r: u64)
    requires
        before + severity_count(finding_views(findings@), sev) <= u64::MAX,
    ensures
        r <= before + severity_count(finding_views(findings@), sev),
        with_section((old(out)@, before as nat), finding_views(findings@), sev, budget as nat) == (
            final(out)@,
            r as nat,
        ),
{
    let group = group_by_severity(findings, sev);
    let ghost g = ref_views(group@);
    let ghost bullets = g.map_values(|f: FindingView| markdown_bullet(f));
    let mut items: Vec<String> = Vec::new();
    let mut i: usize = 0;
    while i < group.len()
        invariant
            i <= group@.len(),
            items@.len() == i,
            forall|j: int| 0 <= j < i ==> #[trigger] items@[j]@ == markdown_bullet(group@[j]@),
        decreases group@.len() - i,
    {
        items.push(render_finding_bullet(group[i]));
        i = i + 1;
    }
    proof {
        assert(texts(items@) =~= bullets);
        assert(g.len() == group@.len());
    }
    let mut head = "## ".to_owned();
    head.append(sev.icon());
    head.append(" ");
    head.append(sev.as_label());
    head.append(" (");
    head.append(decimal_text(group.len() as u64).as_str());
    head.append(")\n\n");
    let (open, omitted) = fill(out, head.as_str(), &items, budget, before > 0);
    if open {
        out.append("\n");
    }
    before + omitted as u64
}

/// Writes the checklist. Returns how many items were left out.
fn render_checklist(out: &mut String, findings: &Vec<Finding>, budget: usize) -> (r: usize)
    ensures
        with_checklist(old(out)@, finding_views(findings@), budget as nat) == (
            final(out)@,
            r as nat,
        ),
{
    let ghost views = finding_views(findings@);
    if findings.len() == 0 {
        out.append("## Verification checklist\n\n");
        out.append("_No findings — nothing to verify._\n");
        return 0;
    }
    let ghost lines = views.map_values(|f: FindingView| checklist_line(f));
    let mut items: Vec<String> = Vec::new();
    let mut i: usize = 0;
    while i < findings.len()
        invariant
            i <= findings@.len(),
            items@.len() == i,
            forall|j: int| 0 <= j < i ==> #[trigger] items@[j]@ == checklist_line(findings@[j]@),
        decreases findings@.len() - i,
    {
        items.push(render_checklist_line(&findings[i]));
        i = i + 1;
    }
    proof {
        assert(texts(items@) =~= lines);
    }
    let (_, omitted) = fill(out, "## Verification checklist\n\n", &items, budget, false);
    omitted
}

/// The markdown report, held to `budget` characters where that is not 0. The
/// head and summary are written in any case.
pub fn render_markdown(
    changed_files: &Vec<String>,
    candidate_symbols: &Vec<String>,
    findings: &Vec<Finding>,
    budget: usize,
) -> (r: String)
    ensures
        r@ == markdown_report(
            changed_files@.len(),
            candidate_symbols@.len(),
            finding_views(findings@),
            budget as nat,
        ),
{
    let ghost views = finding_views(findings@);
    let mut out = render_markdown_header(changed_files, candidate_symbols, findings);
    proof {
        severities_partition_findings(finding_views(findings@));
        assert(findings@.len() == findings.len());
    }
    let high = render_section(&mut out, findings, SeverityClass::High, budget, 0);
    let medium = render_section(&mut out, findings, SeverityClass::Medium, budget, high);
    let low = render_section(&mut out, findings, SeverityClass::Low, budget, medium);
    let omitted = render_section(&mut out, findings, SeverityClass::Unknown, budget, low);
    let items = render_checklist(&mut out, findings, budget);
    if budget != 0 && (omitted > 0 || items > 0) {
        let mut note = "\n---\n\n> **Budget truncation:** ".to_owned();
        note.append(decimal_text(omitted).as_str());
        note.append(" findings and ");
        note.append(decimal_text(items as u64).as_str());
        note.append(
            " checklist items omitted because the rendered markdown would exceed the `--budget=",
        );
        note.append(decimal_text(budget as u64).as_str());
        note.append(
            "` character limit. Priority order was severity → tier → confidence, so what you see is what matters most. Re-run with `--budget=0` or `--format=json` to get everything.\n",
        );
        out.append(note.as_str());
    }
    out
}

// ---------------------------------------------------------------------------
// Laws of the markdown budget
// ---------------------------------------------------------------------------

/// What a section keeps and what it leaves out add up to all of it, and what
/// it keeps stays within the budget or adds nothing.
pub proof fn filling_accounts_for_every_item(
    text: Seq<char>,
    head: Seq<char>,
    items: Seq<Seq<char>>,
    budget: nat,
    closed: bool,
    n: nat,
)
    requires
        n <= items.len(),
    ensures
        ({
            let p = filled(text, head, items, budget, closed, n);
            &&& p.omitted <= n
            &&& p.open <==> p.omitted < n
            &&& budget == 0 && !closed ==> p.omitted == 0
            &&& p.text.len() >= text.len()
            &&& p.text.take(text.len() as int) == text
            &&& budget != 0 ==> p.text.len() <= budget || p.text == text
        }),
    decreases n,
{
    if n > 0 {
        filling_accounts_for_every_item(text, head, items, budget, closed, (n - 1) as nat);
        let q = filled(text, head, items, budget, closed, (n - 1) as nat);
        let p = filled(text, head, items, budget, closed, n);
        assert(p.text.take(text.len() as int) =~= q.text.take(text.len() as int));
    } else {
        assert(text.take(text.len() as int) =~= text);
    }
}

/// A budget that the unlimited page keeps changes nothing.
proof fn lemma_filled_roomy(
    text: Seq<char>,
    head: Seq<char>,
    items: Seq<Seq<char>>,
    budget: nat,
    n: nat,
)
    requires
        n <= items.len(),
        filled(text, head, items, 0, false, n).text.len() <= budget,
    ensures
        filled(text, head, items, budget, false, n) == filled(text, head, items, 0, false, n),
    decreases n,
{
    if n > 0 {
        filling_accounts_for_every_item(text, head, items, 0, false, (n - 1) as nat);
        let q = filled(text, head, items, 0, false, (n - 1) as nat);
        lemma_filled_roomy(text, head, items, budget, (n - 1) as nat);
    }
}

proof fn lemma_section_roomy(
    page: (Seq<char>, nat),
    s: Seq<FindingView>,
    sev: SeverityClass,
    budget: nat,
)
    requires
        page.1 == 0,
        with_section(page, s, sev, 0).0.len() <= budget,
    ensures
        with_section(page, s, sev, budget) == with_section(page, s, sev, 0),
        page.0.len() <= with_section(page, s, sev, 0).0.len(),
        with_section(page, s, sev, 0).1 == page.1,
{
    let group = severity_group(s, sev);
    let items = group.map_values(|f: FindingView| markdown_bullet(f));
    let head = section_head(sev, group.len());
    filling_accounts_for_every_item(page.0, head, items, 0, false, group.len());
    lemma_filled_roomy(page.0, head, items, budget, group.len());
}

proof fn lemma_section_grows(
    page: (Seq<char>, nat),
    s: Seq<FindingView>,
    sev: SeverityClass,
    budget: nat,
)
    ensures
        with_section(page, s, sev, budget).0.len() >= page.0.len(),
        with_section(page, s, sev, budget).0.take(page.0.len() as int) == page.0,
        with_section(page, s, sev, budget).1 >= page.1,
        with_section(page, s, sev, budget).1 - page.1 <= severity_count(s, sev),
        budget != 0 && page.0.len() <= budget + 4 ==> with_section(page, s, sev, budget).0.len()
            <= (if page.0.len() <= budget { budget } else { page.0.len() }) + 1,
        budget != 0 && page.0.len() > budget ==> with_section(page, s, sev, budget).0 == page.0,
{
    let group = severity_group(s, sev);
    let items = group.map_values(|f: FindingView| markdown_bullet(f));
    let head = section_head(sev, group.len());
    filling_accounts_for_every_item(page.0, head, items, budget, page.1 > 0, group.len());
    let p = filled(page.0, head, items, budget, page.1 > 0, group.len());
    reveal_strlit("\n");
    assert("\n"@.len() == 1);
    assert((p.text + "\n"@).take(page.0.len() as int) =~= p.text.take(page.0.len() as int));
    if budget != 0 && page.0.len() > budget {
        lemma_filled_full(page.0, head, items, budget, page.1 > 0, group.len());
    }
}

/// Nothing is added to a page that is over the budget.
proof fn lemma_filled_full(
    text: Seq<char>,
    head: Seq<char>,
    items: Seq<Seq<char>>,
    budget: nat,
    closed: bool,
    n: nat,
)
    requires
        budget != 0,
        text.len() > budget,
        n <= items.len(),
    ensures
        filled(text, head, items, budget, closed, n).text == text,
        !filled(text, head, items, budget, closed, n).open,
    decreases n,
{
    if n > 0 {
        lemma_filled_full(text, head, items, budget, closed, (n - 1) as nat);
    }
}

/// A budget that the unlimited report keeps gives the unlimited report.
pub proof fn roomy_budget_is_unlimited(
    files: nat,
    symbols: nat,
    s: Seq<FindingView>,
    budget: nat,
)
    requires
        markdown_report(files, symbols, s, 0).len() <= budget,
    ensures
        markdown_report(files, symbols, s, budget) == markdown_report(files, symbols, s, 0),
{
    let head = markdown_head(files, symbols, s);
    let h = with_section((head, 0nat), s, SeverityClass::High, 0);
    let m = with_section(h, s, SeverityClass::Medium, 0);
    let l = with_section(m, s, SeverityClass::Low, 0);
    let u = with_section(l, s, SeverityClass::Unknown, 0);
    lemma_section_grows(h, s, SeverityClass::Medium, 0);
    lemma_section_grows(m, s, SeverityClass::Low, 0);
    lemma_section_grows(l, s, SeverityClass::Unknown, 0);
    let lines = s.map_values(|f: FindingView| checklist_line(f));
    if s.len() > 0 {
        filling_accounts_for_every_item(u.0, checklist_head(), lines, 0, false, s.len());
        lemma_filled_roomy(u.0, checklist_head(), lines, budget, s.len());
    }
    lemma_section_roomy((head, 0nat), s, SeverityClass::High, budget);
    lemma_section_roomy(h, s, SeverityClass::Medium, budget);
    lemma_section_roomy(m, s, SeverityClass::Low, budget);
    lemma_section_roomy(l, s, SeverityClass::Unknown, budget);
}

/// Whatever the budget, the report starts with its head and summary.
pub proof fn head_survives_every_budget(files: nat, symbols: nat, s: Seq<FindingView>, budget: nat)
    ensures
        markdown_head(files, symbols, s).len() <= markdown_report(files, symbols, s, budget).len(),
        markdown_report(files, symbols, s, budget).take(
            markdown_head(files, symbols, s).len() as int,
        ) == markdown_head(files, symbols, s),
{
    let head = markdown_head(files, symbols, s);
    let n = head.len() as int;
    let h = with_section((head, 0nat), s, SeverityClass::High, budget);
    let m = with_section(h, s, SeverityClass::Medium, budget);
    let l = with_section(m, s, SeverityClass::Low, budget);
    let u = with_section(l, s, SeverityClass::Unknown, budget);
    lemma_section_grows((head, 0nat), s, SeverityClass::High, budget);
    lemma_section_grows(h, s, SeverityClass::Medium, budget);
    lemma_section_grows(m, s, SeverityClass::Low, budget);
    lemma_section_grows(l, s, SeverityClass::Unknown, budget);
    assert(m.0.take(n) =~= h.0.take(n)) by {
        assert(m.0.take(h.0.len() as int).take(n) =~= m.0.take(n));
    }
    assert(l.0.take(n) =~= m.0.take(n)) by {
        assert(l.0.take(m.0.len() as int).take(n) =~= l.0.take(n));
    }
    assert(u.0.take(n) =~= l.0.take(n)) by {
        assert(u.0.take(l.0.len() as int).take(n) =~= u.0.take(n));
    }
    let lines = s.map_values(|f: FindingView| checklist_line(f));
    filling_accounts_for_every_item(u.0, checklist_head(), lines, budget, false, s.len());
    let c = with_checklist(u.0, s, budget);
    assert(c.0.take(n) =~= u.0.take(n)) by {
        assert(c.0.take(u.0.len() as int) =~= u.0);
        assert(c.0.take(u.0.len() as int).take(n) =~= c.0.take(n));
    }
    let r = markdown_report(files, symbols, s, budget);
    assert(r.take(n) =~= c.0.take(n));
}

/// With a budget and at least one finding, what stands before the truncation
/// note keeps to the budget, but for the head and the blank line behind each
/// section.
pub proof fn budget_bounds_the_page(files: nat, symbols: nat, s: Seq<FindingView>, budget: nat)
    requires
        budget != 0,
        s.len() > 0,
    ensures
        ({
            let head = markdown_head(files, symbols, s);
            let sections = with_sections(head, s, budget);
            let page = with_checklist(sections.0, s, budget).0;
            page.len() <= budget + 1 || page == head
        }),
{
    let head = markdown_head(files, symbols, s);
    let h = with_section((head, 0nat), s, SeverityClass::High, budget);
    let m = with_section(h, s, SeverityClass::Medium, budget);
    let l = with_section(m, s, SeverityClass::Low, budget);
    let u = with_section(l, s, SeverityClass::Unknown, budget);
    lemma_section_grows((head, 0nat), s, SeverityClass::High, budget);
    lemma_section_grows(h, s, SeverityClass::Medium, budget);
    lemma_section_grows(m, s, SeverityClass::Low, budget);
    lemma_section_grows(l, s, SeverityClass::Unknown, budget);
    let lines = s.map_values(|f: FindingView| checklist_line(f));
    filling_accounts_for_every_item(u.0, checklist_head(), lines, budget, false, s.len());
    if u.0.len() > budget {
        lemma_filled_full(u.0, checklist_head(), lines, budget, false, s.len());
    }
}

/// The first items of a section are written, and the others are left out: none
/// on a closed page, and else as many as fit.
pub proof fn first_items_are_written(
    text: Seq<char>,
    head: Seq<char>,
    items: Seq<Seq<char>>,
    budget: nat,
    closed: bool,
    n: nat,
)
    requires
        n <= items.len(),
    ensures
        ({
            let p = filled(text, head, items, budget, closed, n);
            let k = n - p.omitted;
            &&& 0 <= k <= n
            &&& p.text == (if k == 0 {
                text
            } else {
                text + head + flat(items.take(k))
            })
            &&& closed ==> k == 0
            &&& k < n && !closed ==> over((text + head + flat(items.take(k + 1))).len() as int, budget)
        }),
    decreases n,
{
    if n > 0 {
        let m = (n - 1) as nat;
        first_items_are_written(text, head, items, budget, closed, m);
        filling_accounts_for_every_item(text, head, items, budget, closed, m);
        let q = filled(text, head, items, budget, closed, m);
        let k = m - q.omitted;
        lemma_flat_step(items, k);
        assert(text + head + flat(items.take(k + 1)) =~= text + head + flat(items.take(k))
            + items[k]);
        if k == 0 {
            assert(flat(items.take(0)) =~= Seq::empty());
            assert(text + head + flat(items.take(1)) =~= text + head + items[0]);
        }
    }
}

/// The page and the number of findings left out before a severity section.
pub open spec fn page_before(head: Seq<char>, s: Seq<FindingView>, budget: nat, sev: SeverityClass) -> (
    Seq<char>,
    nat,
)
    decreases sev.place_spec(), 0int,
{
    match sev {
        SeverityClass::High => (head, 0),
        SeverityClass::Medium => page_behind(head, s, budget, SeverityClass::High),
        SeverityClass::Low => page_behind(head, s, budget, SeverityClass::Medium),
        SeverityClass::Unknown => page_behind(head, s, budget, SeverityClass::Low),
    }
}

/// The page and the number of findings left out behind a severity section.
pub open spec fn page_behind(head: Seq<char>, s: Seq<FindingView>, budget: nat, sev: SeverityClass) -> (
    Seq<char>,
    nat,
)
    decreases sev.place_spec(), 1int,
{
    with_section(page_before(head, s, budget, sev), s, sev, budget)
}

/// Number of bullets in a severity section.
pub open spec fn bullets_written(
    head: Seq<char>,
    s: Seq<FindingView>,
    budget: nat,
    sev: SeverityClass,
) -> int {
    severity_count(s, sev) - (page_behind(head, s, budget, sev).1 - page_before(
        head,
        s,
        budget,
        sev,
    ).1)
}

/// The place of the finding at `j` among those of its severity.
pub open spec fn place_in_section(s: Seq<FindingView>, j: int) -> nat {
    severity_count(s.take(j), s[j].severity)
}

/// Whether the bullet of the finding at `j` is written.
pub open spec fn bullet_is_written(
    head: Seq<char>,
    s: Seq<FindingView>,
    budget: nat,
    j: int,
) -> bool {
    place_in_section(s, j) < bullets_written(head, s, budget, s[j].severity)
}

/// A severity section holds the first bullets of its findings, below its head
/// and with a blank line behind them, or nothing at all. It has all of them
/// unless some did not fit, and none where a graver finding was left out. The
/// last section ends the page that the checklist goes on.
pub proof fn sections_hold_first_bullets(
    head: Seq<char>,
    s: Seq<FindingView>,
    budget: nat,
    sev: SeverityClass,
)
    ensures
        ({
            let k = bullets_written(head, s, budget, sev);
            let group = severity_group(s, sev);
            let before = page_before(head, s, budget, sev);
            &&& 0 <= k <= group.len()
            &&& before.1 > 0 ==> k == 0
            &&& page_behind(head, s, budget, sev).0 == (if k == 0 {
                before.0
            } else {
                before.0 + section_head(sev, group.len()) + flat(
                    group.map_values(|f: FindingView| markdown_bullet(f)).take(k),
                ) + "\n"@
            })
        }),
        with_sections(head, s, budget) == page_behind(head, s, budget, SeverityClass::Unknown),
{
    let h = page_behind(head, s, budget, SeverityClass::High);
    let m = page_behind(head, s, budget, SeverityClass::Medium);
    let l = page_behind(head, s, budget, SeverityClass::Low);
    let u = page_behind(head, s, budget, SeverityClass::Unknown);
    assert(page_before(head, s, budget, SeverityClass::High) == (head, 0nat));
    assert(h == with_section((head, 0nat), s, SeverityClass::High, budget));
    assert(page_before(head, s, budget, SeverityClass::Medium) == h);
    assert(m == with_section(h, s, SeverityClass::Medium, budget));
    assert(page_before(head, s, budget, SeverityClass::Low) == m);
    assert(l == with_section(m, s, SeverityClass::Low, budget));
    assert(page_before(head, s, budget, SeverityClass::Unknown) == l);
    assert(u == with_section(l, s, SeverityClass::Unknown, budget));
    let group = severity_group(s, sev);
    let before = page_before(head, s, budget, sev);
    let items = group.map_values(|f: FindingView| markdown_bullet(f));
    first_items_are_written(
        before.0,
        section_head(sev, group.len()),
        items,
        budget,
        before.1 > 0,
        group.len(),
    );
    filling_accounts_for_every_item(
        before.0,
        section_head(sev, group.len()),
        items,
        budget,
        before.1 > 0,
        group.len(),
    );
}

/// The finding at `j` stands at its place among those of its severity.
proof fn lemma_place(s: Seq<FindingView>, i: int, j: int)
    requires
        0 <= i < j <= s.len(),
    ensures
        place_in_section(s, i) < severity_count(s.take(j), s[i].severity),
        severity_group(s.take(j), s[i].severity)[place_in_section(s, i) as int] == s[i],
    decreases j,
{
    let sev = s[i].severity;
    let p = |f: FindingView| f.severity == sev;
    lemma_filter_step(s, p, j - 1);
    if i < j - 1 {
        lemma_place(s, i, j - 1);
    }
}

/// Whether findings come with the graver severities first.
pub open spec fn gravest_first(s: Seq<FindingView>) -> bool {
    forall|i: int, j: int|
        #![trigger s[i], s[j]]
        0 <= i < j < s.len() ==> s[i].severity.place_spec() <= s[j].severity.place_spec()
}

/// Where nothing is left out up to some section, nothing is in those before it.
proof fn lemma_full_before(
    head: Seq<char>,
    s: Seq<FindingView>,
    budget: nat,
    sev: SeverityClass,
    graver: SeverityClass,
)
    requires
        graver.place_spec() < sev.place_spec(),
        page_before(head, s, budget, sev).1 == 0,
    ensures
        bullets_written(head, s, budget, graver) == severity_count(s, graver),
    decreases sev.place_spec(),
{
    reveal_with_fuel(page_before, 2);
    reveal_with_fuel(page_behind, 2);
    let prior = match sev {
        SeverityClass::High => SeverityClass::High,
        SeverityClass::Medium => SeverityClass::High,
        SeverityClass::Low => SeverityClass::Medium,
        SeverityClass::Unknown => SeverityClass::Low,
    };
    sections_hold_first_bullets(head, s, budget, prior);
    lemma_section_grows(page_before(head, s, budget, prior), s, prior, budget);
    if graver != prior {
        lemma_full_before(head, s, budget, prior, graver);
    }
}

/// What the budget cuts is the tail of lowest priority: where findings come with
/// the graver ones first and one of them has its bullet, so has every finding
/// before it.
pub proof fn bullets_are_cut_from_the_end(
    head: Seq<char>,
    s: Seq<FindingView>,
    budget: nat,
    i: int,
    j: int,
)
    requires
        gravest_first(s),
        0 <= i < j < s.len(),
        bullet_is_written(head, s, budget, j),
    ensures
        bullet_is_written(head, s, budget, i),
{
    assert(s[i].severity.place_spec() <= s[j].severity.place_spec());
    lemma_place(s, i, j);
    sections_hold_first_bullets(head, s, budget, s[j].severity);
    if s[i].severity != s[j].severity {
        lemma_full_before(head, s, budget, s[j].severity, s[i].severity);
        lemma_place(s, i, s.len() as int);
        assert(s.take(s.len() as int) =~= s);
    }
}

/// The checklist holds the first lines of the findings below its head, or
/// nothing where not even one fits; so a line is only written where all before
/// it are.
pub proof fn checklists_hold_first_lines(text: Seq<char>, s: Seq<FindingView>, budget: nat)
    requires
        s.len() > 0,
    ensures
        ({
            let page = with_checklist(text, s, budget);
            let k = s.len() - page.1;
            &&& 0 <= k <= s.len()
            &&& page.0 == (if k == 0 {
                text
            } else {
                text + checklist_head() + flat(
                    s.map_values(|f: FindingView| checklist_line(f)).take(k),
                )
            })
        }),
{
    let lines = s.map_values(|f: FindingView| checklist_line(f));
    first_items_are_written(text, checklist_head(), lines, budget, false, s.len());
}

/// The largest budget leaves nothing out: no text is longer.
pub proof fn largest_budget_is_unlimited(files: nat, symbols: nat, s: Seq<FindingView>)
    requires
        markdown_report(files, symbols, s, 0).len() <= usize::MAX,
    ensures
        markdown_report(files, symbols, s, usize::MAX as nat) == markdown_report(
            files,
            symbols,
            s,
            0,
        ),
{
    roomy_budget_is_unlimited(files, symbols, s, usize::MAX as nat);
}

// ---------------------------------------------------------------------------
// JSON
// ---------------------------------------------------------------------------

/// The JSON object of the tier counts.
pub open spec fn tiers_json(s: Seq<FindingView>) -> JsonView {
    JsonView::Object(
        seq![
            ("proven"@, JsonView::Count(tier_count(s, Tier::Proven))),
            ("likely"@, JsonView::Count(tier_count(s, Tier::Likely))),
            ("possible"@, JsonView::Count(tier_count(s, Tier::Possible))),
            ("unknown"@, JsonView::Count(tier_count(s, Tier::Unknown))),
        ],
    )
}

/// The JSON object of the severity counts.
pub open spec fn severities_json(s: Seq<FindingView>) -> JsonView {
    JsonView::Object(
        severity_entries(s).map_values(|e: (Seq<char>, nat)| (e.0, JsonView::Count(e.1))),
    )
}

/// The JSON object of the counts.
pub open spec fn summary_json(s: Seq<FindingView>) -> JsonView {
    JsonView::Object(
        seq![
            ("total"@, JsonView::Count(s.len())),
            ("by_severity"@, severities_json(s)),
            ("by_tier"@, tiers_json(s)),
        ],
    )
}

/// The JSON list of findings.
pub open spec fn findings_json(s: Seq<FindingView>) -> JsonView {
    JsonView::List(s.map_values(|f: FindingView| finding_json(f)))
}

/// The JSON envelope.
pub open spec fn report_json(
    files: Seq<Seq<char>>,
    symbols: Seq<Seq<char>>,
    s: Seq<FindingView>,
) -> JsonView {
    JsonView::Object(
        seq![
            ("version"@, JsonView::Text(version_text())),
            ("changed_files"@, text_list(files)),
            ("candidate_symbols"@, text_list(symbols)),
            ("findings"@, findings_json(s)),
            ("summary"@, summary_json(s)),
        ],
    )
}

fn json_tiers(findings: &Vec<Finding>) -> (v: serde_json::Value)
    ensures
        json_view(v) == tiers_json(finding_views(findings@)),
{
    let ghost s = finding_views(findings@);
    let mut m: Vec<(String, serde_json::Value)> = Vec::new();
    m.push(member("proven", json_count(count_tier(findings, Tier::Proven) as u64)));
    m.push(member("likely", json_count(count_tier(findings, Tier::Likely) as u64)));
    m.push(member("possible", json_count(count_tier(findings, Tier::Possible) as u64)));
    m.push(member("unknown", json_count(count_tier(findings, Tier::Unknown) as u64)));
    proof {
        reveal_strlit("proven");
        assert("proven"@.len() == 6);
        assert("proven"@[0] == 'p');
        reveal_strlit("likely");
        assert("likely"@.len() == 6);
        assert("likely"@[0] == 'l');
        reveal_strlit("possible");
        assert("possible"@.len() == 8);
        reveal_strlit("unknown");
        assert("unknown"@.len() == 7);
        assert(member_views(m@) =~= tiers_json(s)->Object_0);
    }
    json_object(m)
}

/// The names of the severities that occur differ from each other.
proof fn lemma_severity_keys(s: Seq<FindingView>)
    ensures
        forall|i: int, j: int|
            #![trigger severity_entries(s)[i], severity_entries(s)[j]]
            0 <= i < j < severity_entries(s).len() ==> severity_entries(s)[i].0
                != severity_entries(s)[j].0,
{
    let n = crate::summary::named_severities();
    let p = |v: SeverityClass| severity_count(s, v) > 0;
    let kept = n.filter(p);
    assert(n.no_duplicates());
    crate::text::lemma_filter_distinct(n, p);
    reveal_strlit("high");
    assert("high"@.len() == 4);
    reveal_strlit("low");
    assert("low"@.len() == 3);
    reveal_strlit("medium");
    assert("medium"@.len() == 6);
    reveal_strlit("unknown");
    assert("unknown"@.len() == 7);
    assert forall|a: SeverityClass, b: SeverityClass| a != b implies #[trigger] a.slug_spec()
        != #[trigger] b.slug_spec() by {}
    let e = severity_entries(s);
    assert forall|i: int, j: int| #![trigger e[i], e[j]] 0 <= i < j < e.len() implies e[i].0 != e[j].0 by {
        assert(e[i].0 == kept[i].slug_spec());
        assert(e[j].0 == kept[j].slug_spec());
        assert(kept[i] != kept[j]);
    }
}

fn json_severities(findings: &Vec<Finding>) -> (v: serde_json::Value)
    ensures
        json_view(v) == severities_json(finding_views(findings@)),
{
    let ghost s = finding_views(findings@);
    let tally = tally_severities(findings);
    let mut m: Vec<(String, serde_json::Value)> = Vec::new();
    let mut i: usize = 0;
    let ghost e = severity_entries(s);
    while i < tally.len()
        invariant
            i <= tally@.len(),
            e == crate::summary::tally_views(tally@),
            m@.len() == i,
            forall|j: int|
                0 <= j < i ==> (#[trigger] m@[j]).0@ == e[j].0 && json_view(m@[j].1)
                    == JsonView::Count(e[j].1),
        decreases tally@.len() - i,
    {
        proof {
            assert(e[i as int].0 == tally@[i as int].0@);
        }
        m.push(member(tally[i].0.as_str(), json_count(tally[i].1 as u64)));
        i = i + 1;
    }
    proof {
        lemma_severity_keys(s);
        assert(member_views(m@) =~= severities_json(s)->Object_0);
        let k = member_views(m@);
        assert forall|i: int, j: int| #![trigger k[i], k[j]] 0 <= i < j < k.len() implies k[i].0 != k[j].0 by {
            assert(k[i].0 == e[i].0);
            assert(k[j].0 == e[j].0);
        }
    }
    json_object(m)
}

fn json_summary(findings: &Vec<Finding>) -> (v: serde_json::Value)
    ensures
        json_view(v) == summary_json(finding_views(findings@)),
{
    let ghost s = finding_views(findings@);
    let mut m: Vec<(String, serde_json::Value)> = Vec::new();
    m.push(member("total", json_count(findings.len() as u64)));
    m.push(member("by_severity", json_severities(findings)));
    m.push(member("by_tier", json_tiers(findings)));
    proof {
        reveal_strlit("total");
        assert("total"@.len() == 5);
        reveal_strlit("by_severity");
        assert("by_severity"@.len() == 11);
        reveal_strlit("by_tier");
        assert("by_tier"@.len() == 7);
        assert(member_views(m@) =~= summary_json(s)->Object_0);
    }
    json_object(m)
}

/// The JSON list of findings.
pub(crate) fn json_findings(findings: &Vec<Finding>) -> (v: serde_json::Value)
    ensures
        json_view(v) == findings_json(finding_views(findings@)),
{
    let ghost s = finding_views(findings@);
    let mut out: Vec<serde_json::Value> = Vec::new();
    let mut i: usize = 0;
    while i < findings.len()
        invariant
            i <= findings@.len(),
            s == finding_views(findings@),
            out@.len() == i,
            forall|j: int| 0 <= j < i ==> json_view(#[trigger] out@[j]) == finding_json(s[j]),
        decreases findings@.len() - i,
    {
        out.push(findings[i].to_json());
        i = i + 1;
    }
    proof {
        assert(json_views(out@) =~= s.map_values(|f: FindingView| finding_json(f)));
    }
    json_list(out)
}

/// The JSON envelope as a value.
pub(crate) fn json_report(
    changed_files: &Vec<String>,
    candidate_symbols: &Vec<String>,
    findings: &Vec<Finding>,
) -> (v: serde_json::Value)
    ensures
        json_view(v) == report_json(
            texts(changed_files@),
            texts(candidate_symbols@),
            finding_views(findings@),
        ),
{
    let mut m: Vec<(String, serde_json::Value)> = Vec::new();
    m.push(member("version", json_string(version())));
    m.push(member("changed_files", json_strings(changed_files)));
    m.push(member("candidate_symbols", json_strings(candidate_symbols)));
    m.push(member("findings", json_findings(findings)));
    m.push(member("summary", json_summary(findings)));
    proof {
        reveal_strlit("version");
        assert("version"@.len() == 7);
        assert("version"@[0] == 'v');
        reveal_strlit("changed_files");
        assert("changed_files"@.len() == 13);
        reveal_strlit("candidate_symbols");
        assert("candidate_symbols"@.len() == 17);
        reveal_strlit("findings");
        assert("findings"@.len() == 8);
        reveal_strlit("summary");
        assert("summary"@.len() == 7);
        assert("summary"@[0] == 's');
        assert(member_views(m@) =~= report_json(
            texts(changed_files@),
            texts(candidate_symbols@),
            finding_views(findings@),
        )->Object_0);
    }
    json_object(m)
}

/// The JSON report, indented.
pub fn render_json(
    changed_files: &Vec<String>,
    candidate_symbols: &Vec<String>,
    findings: &Vec<Finding>,
) -> (r: String)
    ensures
        r@ == pretty_text(
            report_json(
                texts(changed_files@),
                texts(candidate_symbols@),
                finding_views(findings@),
            ),
        ),
{
    print_pretty(&json_report(changed_files, candidate_symbols, findings))
}

/// A report in a given format. Only markdown and the pull-request comment heed
/// the budget.
pub open spec fn rendered(
    format: Format,
    files: Seq<Seq<char>>,
    symbols: Seq<Seq<char>>,
    s: Seq<FindingView>,
    budget: nat,
) -> Seq<char> {
    match format {
        Format::Text => text_report(files, symbols, s),
        Format::Markdown => markdown_report(files.len(), symbols.len(), s, budget),
        Format::Json => pretty_text(report_json(files, symbols, s)),
        Format::Sarif => pretty_text(sarif_json(s)),
        Format::PrComment => comment_report(files, symbols, s, budget),
    }
}

/// A report without a budget.
pub fn render(
    format: Format,
    changed_files: &Vec<String>,
    candidate_symbols: &Vec<String>,
    findings: &Vec<Finding>,
) -> (r: String)
    ensures
        r@ == rendered(
            format,
            texts(changed_files@),
            texts(candidate_symbols@),
            finding_views(findings@),
            0,
        ),
{
    render_with_budget(format, changed_files, candidate_symbols, findings, 0)
}

/// A report, held to `budget` characters where the format heeds it. Budget 0
/// has no limit.
pub fn render_with_budget(
    format: Format,
    changed_files: &Vec<String>,
    candidate_symbols: &Vec<String>,
    findings: &Vec<Finding>,
    budget: usize,
) -> (r: String)
    ensures
        r@ == rendered(
            format,
            texts(changed_files@),
            texts(candidate_symbols@),
            finding_views(findings@),
            budget as nat,
        ),
{
    match format {
        Format::Text => render_text(changed_files, candidate_symbols, findings),
        Format::Markdown => render_markdown(changed_files, candidate_symbols, findings, budget),
        Format::Json => render_json(changed_files, candidate_symbols, findings),
        Format::Sarif => render_sarif(findings),
        Format::PrComment => render_pr_comment(changed_files, candidate_symbols, findings, budget),
    }
}

/// Text, JSON and SARIF do not depend on the budget.
pub proof fn budget_only_binds_markdown(
    format: Format,
    files: Seq<Seq<char>>,
    symbols: Seq<Seq<char>>,
    s: Seq<FindingView>,
    budget: nat,
)
    requires
        format == Format::Text || format == Format::Json || format == Format::Sarif,
    ensures
        rendered(format, files, symbols, s, budget) == rendered(format, files, symbols, s, 0),
{
}

/// The line of a finding shows its id, its summary, its tier and its confidence;
/// its bullet shows its evidence too, and the suggested action where there is
/// one; its line in the checklist shows its severity.
pub proof fn lines_show_their_finding(f: FindingView)
    ensures
        holds(text_line(f), f.id),
        holds(text_line(f), kind_summary(f.kind)),
        holds(text_line(f), f.tier.title_spec()),
        holds(text_line(f), hundredths_text(f.confidence)),
        holds(markdown_bullet(f), f.id),
        holds(markdown_bullet(f), kind_summary(f.kind)),
        holds(markdown_bullet(f), f.tier.title_spec()),
        holds(markdown_bullet(f), hundredths_text(f.confidence)),
        holds(markdown_bullet(f), f.evidence),
        f.suggested_action matches Some(a) ==> holds(markdown_bullet(f), a),
        holds(checklist_line(f), f.severity.label_spec()),
        holds(checklist_line(f), kind_summary(f.kind)),
        holds(checklist_line(f), f.tier.title_spec()),
        holds(checklist_line(f), hundredths_text(f.confidence)),
{
    broadcast use crate::text::group_holds;

}

/// A text report shows the number of the changed files and candidate symbols,
/// each of them on a line of its own, and every finding below its severity.
pub proof fn text_reports_show_everything(
    files: Seq<Seq<char>>,
    symbols: Seq<Seq<char>>,
    s: Seq<FindingView>,
    i: int,
)
    ensures
        holds(text_report(files, symbols, s), decimal(files.len())),
        holds(text_report(files, symbols, s), decimal(symbols.len())),
        0 <= i < files.len() ==> holds(text_report(files, symbols, s), "  "@ + files[i] + "\n"@),
        0 <= i < symbols.len() ==> holds(
            text_report(files, symbols, s),
            "  "@ + symbols[i] + "\n"@,
        ),
        0 <= i < s.len() ==> holds(text_report(files, symbols, s), text_line(s[i])),
        0 <= i < s.len() ==> holds(text_bucket(s, s[i].severity), text_line(s[i])),
        forall|sev: SeverityClass|
            holds(text_report(files, symbols, s), #[trigger] text_bucket(s, sev)),
{
    broadcast use crate::text::group_holds;

    if 0 <= i < files.len() {
        let w = wrapped(files, "  "@, "\n"@);
        assert(w[i] == "  "@ + files[i] + "\n"@);
        crate::text::lemma_holds_flat(w, i, w[i]);
    }
    if 0 <= i < symbols.len() {
        let w = wrapped(symbols, "  "@, "\n"@);
        assert(w[i] == "  "@ + symbols[i] + "\n"@);
        crate::text::lemma_holds_flat(w, i, w[i]);
    }
    if 0 <= i < s.len() {
        let sev = s[i].severity;
        let group = severity_group(s, sev);
        assert(s.contains(s[i]));
        crate::order::lemma_filter_member(s, |f: FindingView| f.severity == sev, s[i]);
        let k = group.index_of(s[i]);
        let lines = group.map_values(|f: FindingView| text_line(f));
        assert(lines[k] == text_line(s[i]));
        crate::text::lemma_holds_flat(lines, k, text_line(s[i]));
        assert(holds(text_bucket(s, sev), text_line(s[i])));
    }
}

/// Without a budget a markdown report shows the bullet of every finding and its
/// line in the checklist.
pub proof fn unlimited_pages_show_every_finding(
    files: nat,
    symbols: nat,
    s: Seq<FindingView>,
    i: int,
)
    requires
        0 <= i < s.len(),
    ensures
        holds(markdown_report(files, symbols, s, 0), markdown_bullet(s[i])),
        holds(markdown_report(files, symbols, s, 0), checklist_line(s[i])),
{
    broadcast use crate::text::group_holds;

    let head = markdown_head(files, symbols, s);
    let h = with_section((head, 0nat), s, SeverityClass::High, 0);
    let m = with_section(h, s, SeverityClass::Medium, 0);
    let l = with_section(m, s, SeverityClass::Low, 0);
    let u = with_section(l, s, SeverityClass::Unknown, 0);
    let b = markdown_bullet(s[i]);
    lemma_unlimited_section((head, 0nat), s, SeverityClass::High, i, b);
    lemma_unlimited_section(h, s, SeverityClass::Medium, i, b);
    lemma_unlimited_section(m, s, SeverityClass::Low, i, b);
    lemma_unlimited_section(l, s, SeverityClass::Unknown, i, b);
    let lines = s.map_values(|f: FindingView| checklist_line(f));
    let p = filled(u.0, checklist_head(), lines, 0, false, s.len());
    filling_accounts_for_every_item(u.0, checklist_head(), lines, 0, false, s.len());
    first_items_are_written(u.0, checklist_head(), lines, 0, false, s.len());
    assert(lines.take(s.len() as int) =~= lines);
    assert(lines[i] == checklist_line(s[i]));
    crate::text::lemma_holds_flat(lines, i, lines[i]);
    assert(p.text == u.0 + checklist_head() + flat(lines));
}

proof fn lemma_unlimited_section(
    page: (Seq<char>, nat),
    s: Seq<FindingView>,
    sev: SeverityClass,
    i: int,
    part: Seq<char>,
)
    requires
        0 <= i < s.len(),
        part == markdown_bullet(s[i]),
        page.1 == 0,
    ensures
        with_section(page, s, sev, 0).1 == 0,
        s[i].severity == sev ==> holds(with_section(page, s, sev, 0).0, part),
        holds(page.0, part) ==> holds(with_section(page, s, sev, 0).0, part),
{
    broadcast use crate::text::group_holds;

    let group = severity_group(s, sev);
    let items = group.map_values(|f: FindingView| markdown_bullet(f));
    let head = section_head(sev, group.len());
    let p = filled(page.0, head, items, 0, false, group.len());
    filling_accounts_for_every_item(page.0, head, items, 0, false, group.len());
    first_items_are_written(page.0, head, items, 0, false, group.len());
    assert(items.take(group.len() as int) =~= items);
    if s[i].severity == sev {
        assert(s.contains(s[i]));
        crate::order::lemma_filter_member(s, |f: FindingView| f.severity == sev, s[i]);
        let k = group.index_of(s[i]);
        assert(items[k] == part);
        crate::text::lemma_holds_flat(items, k, part);
        assert(p.text == page.0 + head + flat(items));
    }
}

/// A report that leaves something out says how much.
pub proof fn truncated_pages_say_so(files: nat, symbols: nat, s: Seq<FindingView>, budget: nat)
    requires
        budget != 0,
    ensures
        ({
            let sections = with_sections(markdown_head(files, symbols, s), s, budget);
            let page = with_checklist(sections.0, s, budget);
            &&& sections.1 > 0 || page.1 > 0 ==> holds(
                markdown_report(files, symbols, s, budget),
                truncation_note(sections.1, page.1, budget),
            )
            &&& holds(truncation_note(sections.1, page.1, budget), decimal(sections.1))
            &&& holds(truncation_note(sections.1, page.1, budget), decimal(page.1))
            &&& holds(truncation_note(sections.1, page.1, budget), decimal(budget))
        }),
{
    broadcast use crate::text::group_holds;

}

/// The head counts the files, the symbols and the findings of each severity.
pub proof fn heads_count_everything(files: nat, symbols: nat, s: Seq<FindingView>)
    ensures
        holds(markdown_head(files, symbols, s), decimal(files)),
        holds(markdown_head(files, symbols, s), decimal(symbols)),
        holds(markdown_head(files, symbols, s), decimal(s.len())),
        holds(
            markdown_head(files, symbols, s),
            decimal(severity_count(s, SeverityClass::High)) + " high, "@ + decimal(
                severity_count(s, SeverityClass::Medium),
            ) + " medium, "@ + decimal(severity_count(s, SeverityClass::Low)) + " low, "@ + decimal(
                severity_count(s, SeverityClass::Unknown),
            ) + " unknown"@,
        ),
{
    broadcast use crate::text::group_holds;

    let counts = decimal(severity_count(s, SeverityClass::High)) + " high, "@ + decimal(
        severity_count(s, SeverityClass::Medium),
    ) + " medium, "@ + decimal(severity_count(s, SeverityClass::Low)) + " low, "@ + decimal(
        severity_count(s, SeverityClass::Unknown),
    ) + " unknown"@;
    let front = "# cargo-impact v"@ + version_text() + " blast radius\n\n"@ + "## Summary\n\n"@
        + "- **Changed files:** "@ + decimal(files) + "\n- **Candidate symbols:** "@ + decimal(
        symbols,
    ) + "\n- **Findings:** "@ + decimal(s.len()) + " ("@;
    reveal_strlit(" unknown");
    reveal_strlit(")\n\n");
    reveal_strlit(" unknown)\n\n");
    assert(" unknown)\n\n"@ =~= " unknown"@ + ")\n\n"@);
    assert(markdown_head(files, symbols, s) =~= front + counts + ")\n\n"@);
}

/// The JSON report lists the files, the symbols and the findings in order, one
/// object for each finding, and counts them by severity and by tier.
pub proof fn json_reports_list_everything(
    files: Seq<Seq<char>>,
    symbols: Seq<Seq<char>>,
    s: Seq<FindingView>,
    t: Tier,
)
    ensures
        ({
            let m = report_json(files, symbols, s)->Object_0;
            &&& report_json(files, symbols, s) is Object
            &&& m.contains(("version"@, JsonView::Text(version_text())))
            &&& m.contains(("changed_files"@, text_list(files)))
            &&& m.contains(("candidate_symbols"@, text_list(symbols)))
            &&& m.contains(("findings"@, findings_json(s)))
            &&& m.contains(("summary"@, summary_json(s)))
            &&& m.len() == 5
        }),
        findings_json(s) is List,
        findings_json(s)->List_0.len() == s.len(),
        forall|i: int|
            0 <= i < s.len() ==> #[trigger] findings_json(s)->List_0[i] == finding_json(s[i]),
        summary_json(s)->Object_0.contains(("total"@, JsonView::Count(s.len()))),
        summary_json(s)->Object_0.contains(("by_severity"@, severities_json(s))),
        summary_json(s)->Object_0.contains(("by_tier"@, tiers_json(s))),
        tiers_json(s)->Object_0.contains((t.slug_spec(), JsonView::Count(tier_count(s, t)))),
        tiers_json(s)->Object_0.len() == 4,
{
    let m = report_json(files, symbols, s)->Object_0;
    assert(m[0] == ("version"@, JsonView::Text(version_text())));
    assert(m[1] == ("changed_files"@, text_list(files)));
    assert(m[2] == ("candidate_symbols"@, text_list(symbols)));
    assert(m[3] == ("findings"@, findings_json(s)));
    assert(m[4] == ("summary"@, summary_json(s)));
    let c = summary_json(s)->Object_0;
    assert(c[0] == ("total"@, JsonView::Count(s.len())));
    assert(c[1] == ("by_severity"@, severities_json(s)));
    assert(c[2] == ("by_tier"@, tiers_json(s)));
    let k = tiers_json(s)->Object_0;
    assert(k[0] == ("proven"@, JsonView::Count(tier_count(s, Tier::Proven))));
    assert(k[1] == ("likely"@, JsonView::Count(tier_count(s, Tier::Likely))));
    assert(k[2] == ("possible"@, JsonView::Count(tier_count(s, Tier::Possible))));
    assert(k[3] == ("unknown"@, JsonView::Count(tier_count(s, Tier::Unknown))));
}

/// Each severity that occurs is counted under its name.
pub proof fn json_counts_severities_that_occur(s: Seq<FindingView>, sev: SeverityClass, n: nat)
    ensures
        severities_json(s)->Object_0.contains((sev.slug_spec(), JsonView::Count(n))) <==> n > 0
            && severity_count(s, sev) == n,
{
    crate::summary::tallies_count_what_occurs(s, sev, n);
    let e = severity_entries(s);
    let m = severities_json(s)->Object_0;
    if e.contains((sev.slug_spec(), n)) {
        let k = e.index_of((sev.slug_spec(), n));
        assert(m[k] == (sev.slug_spec(), JsonView::Count(n)));
    }
    if m.contains((sev.slug_spec(), JsonView::Count(n))) {
        let k = m.index_of((sev.slug_spec(), JsonView::Count(n)));
        assert(e[k] == (sev.slug_spec(), n));
    }
}

/// Each format renders its own report.
pub proof fn formats_render_their_report(
    files: Seq<Seq<char>>,
    symbols: Seq<Seq<char>>,
    s: Seq<FindingView>,
    budget: nat,
)
    ensures
        rendered(Format::Text, files, symbols, s, budget) == text_report(files, symbols, s),
        rendered(Format::Markdown, files, symbols, s, budget) == markdown_report(
            files.len(),
            symbols.len(),
            s,
            budget,
        ),
        rendered(Format::Json, files, symbols, s, budget) == pretty_text(
            report_json(files, symbols, s),
        ),
        rendered(Format::Sarif, files, symbols, s, budget) == pretty_text(sarif_json(s)),
        rendered(Format::PrComment, files, symbols, s, budget) == comment_report(
            files,
            symbols,
            s,
            budget,
        ),
{
}

} // verus!
