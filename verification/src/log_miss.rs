//! The log of findings that a run missed: one JSON record on each line.
use crate::diff::opt_str;
use crate::finding::member;
use crate::format::{version, version_text};
use crate::json::{
    compact_text, is_plain, json_count, json_object, json_string, member_views, members_are_plain,
    parsed_json, print_compact, JsonView,
};
use crate::paths::{join_path, path_joined};
use crate::text::{
    decimal, decimal_text, first_at, lemma_first_at, lemma_first_at_is, lemma_pieces_nonempty,
    lines, lines_of, only, pieces, pieces_from, trim, trimmed, without_return,
};
use vstd::prelude::*;
use vstd::string::*;

verus! {

/// What the user reports.
#[derive(Debug, PartialEq, Eq)]
pub struct LogMissArgs {
    /// Id of the finding, or `none` when there was no finding at all.
    pub finding_id: String,
    /// What should have been found.
    pub what_broke: String,
    /// Root of the workspace; the working directory when absent.
    pub manifest_dir: Option<String>,
}

/// The revision that `git rev-parse HEAD` printed, where it succeeded.
pub fn git_head(success: bool, stdout: &str) -> (r: Option<String>)
    ensures
        match r {
            Some(h) => success && h@ == trimmed(stdout@),
            None => !success,
        },
{
    if success {
        Some(trim(stdout))
    } else {
        None
    }
}

/// The log below the workspace root.
pub open spec fn log_path(root: Seq<char>) -> Seq<char> {
    path_joined(root, "target/ai-tools-cache/impact/misses.jsonl"@)
}

/// The log below the workspace root.
pub fn log_file(root: &str) -> (r: String)
    ensures
        r@ == log_path(root@),
{
    join_path(root, "target/ai-tools-cache/impact/misses.jsonl")
}

/// A record of the log.
pub open spec fn record_json(
    timestamp: nat,
    finding_id: Seq<char>,
    what_broke: Seq<char>,
    head: Option<Seq<char>>,
) -> JsonView {
    JsonView::Object(
        seq![
            ("timestamp"@, JsonView::Count(timestamp)),
            ("tool_version"@, JsonView::Text(version_text())),
            ("finding_id"@, JsonView::Text(finding_id)),
            ("what_broke"@, JsonView::Text(what_broke)),
            (
                "git_head"@,
                JsonView::Text(
                    match head {
                        Some(h) => h,
                        None => "unknown"@,
                    },
                ),
            ),
        ],
    )
}

/// Records are plain.
proof fn lemma_record_plain(v: JsonView)
    requires
        exists|t: nat, f: Seq<char>, w: Seq<char>, h: Option<Seq<char>>|
            v == #[trigger] record_json(t, f, w, h),
    ensures
        is_plain(v, 100),
{
    let m = v->Object_0;
    let a = m.drop_last();
    let b = a.drop_last();
    let c = b.drop_last();
    let d = c.drop_last();
    assert(d.drop_last().len() == 0);
    assert(members_are_plain(d.drop_last(), 99));
    assert(is_plain(d.last().1, 99));
    assert(members_are_plain(d, 99));
    assert(is_plain(c.last().1, 99));
    assert(members_are_plain(c, 99));
    assert(is_plain(b.last().1, 99));
    assert(members_are_plain(b, 99));
    assert(is_plain(a.last().1, 99));
    assert(members_are_plain(a, 99));
    assert(is_plain(m.last().1, 99));
    assert(members_are_plain(m, 99));
}

/// The line for a record, without its line feed. It is a JSON text of the
/// record, and a single line.
pub fn miss_record(args: &LogMissArgs, timestamp: u64, head: Option<&str>) -> (r: String)
    ensures
        r@ == compact_text(
            record_json(timestamp as nat, args.finding_id@, args.what_broke@, opt_str(head)),
        ),
        parsed_json(r@) == Some(
            record_json(timestamp as nat, args.finding_id@, args.what_broke@, opt_str(head)),
        ),
        r@.len() > 0,
        forall|i: int| 0 <= i < r@.len() ==> #[trigger] r@[i] != '\n' && r@[i] != '\r',
{
    let rev = match head {
        Some(h) => h,
        None => "unknown",
    };
    let mut m: Vec<(String, serde_json::Value)> = Vec::new();
    m.push(member("timestamp", json_count(timestamp)));
    m.push(member("tool_version", json_string(version())));
    m.push(member("finding_id", json_string(args.finding_id.as_str())));
    m.push(member("what_broke", json_string(args.what_broke.as_str())));
    m.push(member("git_head", json_string(rev)));
    proof {
        reveal_strlit("timestamp");
        assert("timestamp"@.len() == 9);
        reveal_strlit("tool_version");
        assert("tool_version"@.len() == 12);
        reveal_strlit("finding_id");
        assert("finding_id"@.len() == 10);
        assert("finding_id"@[0] == 'f');
        reveal_strlit("what_broke");
        assert("what_broke"@.len() == 10);
        assert("what_broke"@[0] == 'w');
        reveal_strlit("git_head");
        assert("git_head"@.len() == 8);
        let v = record_json(timestamp as nat, args.finding_id@, args.what_broke@, opt_str(head));
        assert(member_views(m@) =~= v->Object_0);
        lemma_record_plain(v);
    }
    print_compact(&json_object(m))
}

/// A record with its line feed, as it is appended to the log.
pub fn miss_line(args: &LogMissArgs, timestamp: u64, head: Option<&str>) -> (r: String)
    ensures
        r@ == compact_text(
            record_json(timestamp as nat, args.finding_id@, args.what_broke@, opt_str(head)),
        ) + "\n"@,
{
    let mut s = miss_record(args, timestamp, head);
    s.append("\n");
    s
}

/// What is printed once a record is logged.
pub fn logged_notice(path: &str, log: &str) -> (r: String)
    ensures
        r@ == "cargo-impact: logged miss to "@ + path@ + "\n("@ + decimal(lines_of(log@).len())
            + " records total — free dataset for future heuristic tuning)"@,
{
    let all = lines(log);
    proof {
        assert(crate::text::texts(all@).len() == all@.len());
    }
    let mut s = "cargo-impact: logged miss to ".to_owned();
    s.append(path);
    s.append("\n(");
    s.append(decimal_text(all.len() as u64).as_str());
    s.append(" records total — free dataset for future heuristic tuning)");
    s
}

// ---------------------------------------------------------------------------
// Laws
// ---------------------------------------------------------------------------

/// The pieces of a text that is empty or ends in a line feed, with one more
/// line behind it.
proof fn lemma_pieces_of_appended(s: Seq<char>, t: Seq<char>, from: int)
    requires
        0 <= from <= s.len(),
        from < s.len() ==> s.last() == '\n',
        forall|i: int| 0 <= i < t.len() ==> #[trigger] t[i] != '\n',
    ensures
        pieces_from(s, only('\n'), from).len() > 0,
        pieces_from(s, only('\n'), from).last().len() == 0,
        pieces_from(s + t + seq!['\n'], only('\n'), from) == pieces_from(
            s,
            only('\n'),
            from,
        ).drop_last() + seq![t, Seq::empty()],
    decreases s.len() - from,
{
    let p = only('\n');
    let u = s + t + seq!['\n'];
    lemma_first_at(s, p, from);
    lemma_pieces_nonempty(s, p, from);
    let a = pieces_from(s, p, from);
    let b = pieces_from(u, p, from);
    if from == s.len() {
        let at = from + t.len();
        assert forall|j: int| from <= j < at implies !p(#[trigger] u[j]) by {
            assert(u[j] == t[j - from]);
        }
        assert(u[at] == '\n');
        lemma_first_at_is(u, p, from, at);
        assert(u.subrange(from, at) =~= t);
        let end = u.len() as int;
        lemma_first_at(u, p, end);
        assert(u.subrange(end, end) =~= Seq::empty());
        assert(pieces_from(u, p, end) =~= seq![Seq::<char>::empty()]);
        assert(a =~= seq![s.subrange(from, from)]);
        assert(a.last().len() == 0);
        assert(b =~= a.drop_last() + seq![t, Seq::empty()]);
    } else {
        let end = first_at(s, p, from);
        assert(end < s.len()) by {
            if end == s.len() {
                assert(!p(s[s.len() - 1]));
            }
        }
        assert forall|j: int| from <= j < end implies !p(#[trigger] u[j]) by {
            assert(u[j] == s[j]);
        }
        assert(u[end] == s[end]);
        lemma_first_at_is(u, p, from, end);
        lemma_pieces_of_appended(s, t, end + 1);
        assert(u.subrange(from, end) =~= s.subrange(from, end));
        let x = seq![s.subrange(from, end)];
        let rest = pieces_from(s, p, end + 1);
        assert(a == x + rest);
        assert(a.drop_last() =~= x + rest.drop_last());
        assert(b =~= a.drop_last() + seq![t, Seq::empty()]);
    }
}

/// Appending a record to a log that is empty or ends in a line feed adds one
/// line to it, which is that record, and leaves the lines before as they are.
/// The log ends in a line feed again.
pub proof fn records_stay_on_their_own_lines(log: Seq<char>, record: Seq<char>)
    requires
        log.len() > 0 ==> log.last() == '\n',
        record.len() > 0,
        forall|i: int| 0 <= i < record.len() ==> #[trigger] record[i] != '\n' && record[i] != '\r',
    ensures
        lines_of(log + record + "\n"@) == lines_of(log).push(record),
        (log + record + "\n"@).last() == '\n',
{
    reveal_strlit("\n");
    assert("\n"@ =~= seq!['\n']);
    let p = only('\n');
    let u = log + record + seq!['\n'];
    lemma_pieces_of_appended(log, record, 0);
    let a = pieces(log, p);
    let b = pieces(u, p);
    let strip = |l: Seq<char>| without_return(l);
    assert(b.last() =~= Seq::<char>::empty());
    assert(b.drop_last() =~= a.drop_last().push(record));
    assert(record[record.len() - 1] != '\r');
    assert(without_return(record) == record);
    assert(b.drop_last().map_values(strip) =~= a.drop_last().map_values(strip).push(record));
    assert(lines_of(u) == b.drop_last().map_values(strip));
    assert(lines_of(log) == a.drop_last().map_values(strip));
}

/// A record tells when, by which version and of which finding a miss was logged,
/// what broke, and at which revision, where that is known.
pub proof fn records_tell_of_the_miss(
    timestamp: nat,
    finding_id: Seq<char>,
    what_broke: Seq<char>,
    head: Option<Seq<char>>,
)
    ensures
        ({
            let m = record_json(timestamp, finding_id, what_broke, head)->Object_0;
            &&& m.len() == 5
            &&& m.contains(("timestamp"@, JsonView::Count(timestamp)))
            &&& m.contains(("tool_version"@, JsonView::Text(version_text())))
            &&& m.contains(("finding_id"@, JsonView::Text(finding_id)))
            &&& m.contains(("what_broke"@, JsonView::Text(what_broke)))
            &&& head matches Some(h) ==> m.contains(("git_head"@, JsonView::Text(h)))
            &&& head is None ==> m.contains(("git_head"@, JsonView::Text("unknown"@)))
        }),
{
    let m = record_json(timestamp, finding_id, what_broke, head)->Object_0;
    assert(m[0] == ("timestamp"@, JsonView::Count(timestamp)));
    assert(m[1] == ("tool_version"@, JsonView::Text(version_text())));
    assert(m[2] == ("finding_id"@, JsonView::Text(finding_id)));
    assert(m[3] == ("what_broke"@, JsonView::Text(what_broke)));
    if let Some(h) = head {
        assert(m[4] == ("git_head"@, JsonView::Text(h)));
    } else {
        assert(m[4] == ("git_head"@, JsonView::Text("unknown"@)));
    }
}

} // verus!
