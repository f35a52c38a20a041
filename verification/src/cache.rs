//! Caches keyed by file contents.
use crate::finding::member;
use crate::json::{
    compact_text, is_plain, json_amount, json_count, json_get, json_items, json_members,
    json_object, json_string, json_text, json_view, json_views, member_of, member_views,
    members_are_plain, parse_json, parsed_json, print_compact, JsonView,
};
use crate::paths::{is_same_path, join_path, path_joined, same_path};
use crate::text::same;
use crate::textmap::{lookup, put, TextMap};
use sha2::Digest;
use vstd::prelude::*;
use vstd::string::*;

verus! {

/// The SHA-256 digest of bytes as lower-case hexadecimal digits.
pub uninterp spec fn sha256_hex(bytes: Seq<u8>) -> Seq<char>;

/// `sha2::Sha256::digest`, printed with `{:x}`. The digest depends on the bytes
/// alone; the contract names its text.
#[verifier::external_body]
fn digest_text(bytes: &Vec<u8>) -> (r: String)
    ensures
        r@ == sha256_hex(bytes@),
{
    format!("{:x}", sha2::Sha256::digest(bytes))
}

/// The hash of a file's contents, where it can be read.
pub fn file_hash(contents: &Option<Vec<u8>>) -> (r: Option<String>)
    ensures
        match r {
            Some(h) => contents is Some && h@ == sha256_hex(contents->0@),
            None => contents is None,
        },
{
    match contents {
        Some(b) => Some(digest_text(b)),
        None => None,
    }
}

/// The directory of the caches below the workspace root.
pub open spec fn cache_directory(root: Seq<char>) -> Seq<char> {
    path_joined(root, "target/cargo-impact/cache"@)
}

fn cache_dir_of(root: &str) -> (r: String)
    ensures
        r@ == cache_directory(root@),
{
    join_path(root, "target/cargo-impact/cache")
}

// ---------------------------------------------------------------------------
// Entries
// ---------------------------------------------------------------------------

/// What is known of a file: the hash of its contents and when it was modified.
#[derive(Debug, PartialEq, Eq)]
pub struct CachedEntry {
    pub hash: String,
    pub mtime: u64,
}

/// A [`CachedEntry`] as plain data.
#[verifier::ext_equal]
pub struct EntryView {
    pub hash: Seq<char>,
    pub mtime: nat,
}

impl View for CachedEntry {
    type V = EntryView;

    open spec fn view(&self) -> EntryView {
        EntryView { hash: self.hash@, mtime: self.mtime as nat }
    }
}

/// Cache entries as plain data.
pub open spec fn entry_views(s: Seq<(String, CachedEntry)>) -> Seq<(Seq<char>, EntryView)> {
    s.map_values(|e: (String, CachedEntry)| (e.0@, e.1@))
}

/// Position of the entry for a path, from `from` on; the number of entries
/// where there is none.
pub open spec fn entry_at(s: Seq<(Seq<char>, EntryView)>, path: Seq<char>, from: int) -> int
    decreases s.len() - from,
{
    if from >= s.len() {
        s.len() as int
    } else if same_path(s[from].0, path) {
        from
    } else {
        entry_at(s, path, from + 1)
    }
}

/// The entry for a path, where there is one.
pub open spec fn entry_for(s: Seq<(Seq<char>, EntryView)>, path: Seq<char>) -> Option<EntryView> {
    let i = entry_at(s, path, 0);
    if i < s.len() {
        Some(s[i].1)
    } else {
        None
    }
}

/// Entries with the entry for a path set.
pub open spec fn with_entry(
    s: Seq<(Seq<char>, EntryView)>,
    path: Seq<char>,
    e: EntryView,
) -> Seq<(Seq<char>, EntryView)> {
    let i = entry_at(s, path, 0);
    if i < s.len() {
        s.update(i, (s[i].0, e))
    } else {
        s.push((path, e))
    }
}

/// No path has two entries.
pub open spec fn distinct_paths(s: Seq<(Seq<char>, EntryView)>) -> bool {
    forall|i: int, j: int|
        #![trigger s[i], s[j]]
        0 <= i < j < s.len() ==> !same_path(s[i].0, s[j].0)
}

/// Bounds of [`entry_at`].
proof fn lemma_entry_at(s: Seq<(Seq<char>, EntryView)>, path: Seq<char>, from: int)
    requires
        0 <= from <= s.len(),
    ensures
        from <= entry_at(s, path, from) <= s.len(),
        entry_at(s, path, from) < s.len() ==> same_path(s[entry_at(s, path, from)].0, path),
        forall|j: int|
            from <= j < entry_at(s, path, from) ==> !same_path((#[trigger] s[j]).0, path),
    decreases s.len() - from,
{
    if from < s.len() && !same_path(s[from].0, path) {
        lemma_entry_at(s, path, from + 1);
    }
}

/// An entry that matches, with none before it that does, is the first one.
proof fn lemma_entry_at_is(s: Seq<(Seq<char>, EntryView)>, path: Seq<char>, from: int, at: int)
    requires
        0 <= from <= at <= s.len(),
        forall|j: int| from <= j < at ==> !same_path((#[trigger] s[j]).0, path),
        at < s.len() ==> same_path(s[at].0, path),
    ensures
        entry_at(s, path, from) == at,
    decreases at - from,
{
    if from < at {
        assert(!same_path(s[from].0, path));
        lemma_entry_at_is(s, path, from + 1, at);
    }
}

/// Setting an entry gives it back for every spelling of its path, leaves the
/// entries of other paths as they are, and keeps paths distinct.
pub proof fn entries_are_set_one_at_a_time(
    s: Seq<(Seq<char>, EntryView)>,
    path: Seq<char>,
    e: EntryView,
    other: Seq<char>,
)
    ensures
        same_path(path, other) ==> entry_for(with_entry(s, path, e), other) == Some(e),
        !same_path(path, other) ==> entry_for(with_entry(s, path, e), other) == entry_for(
            s,
            other,
        ),
        distinct_paths(s) ==> distinct_paths(with_entry(s, path, e)),
{
    let r = with_entry(s, path, e);
    lemma_entry_at(s, path, 0);
    lemma_entry_at(s, other, 0);
    let i = entry_at(s, path, 0);
    let k = entry_at(s, other, 0);
    if same_path(path, other) {
        assert forall|j: int| 0 <= j < i implies !same_path((#[trigger] r[j]).0, other) by {
            assert(!same_path(s[j].0, path));
        }
        lemma_entry_at_is(r, other, 0, i);
    } else {
        assert forall|j: int| 0 <= j < k implies !same_path((#[trigger] r[j]).0, other) by {
            assert(!same_path(s[j].0, other));
        }
        if k < s.len() {
            lemma_entry_at_is(r, other, 0, k);
        } else if i < s.len() {
            lemma_entry_at_is(r, other, 0, k);
        } else {
            lemma_entry_at_is(r, other, 0, k + 1);
        }
    }
    if distinct_paths(s) {
        assert forall|a: int, b: int| #![trigger r[a], r[b]] 0 <= a < b < r.len() implies !same_path(
            r[a].0,
            r[b].0,
        ) by {
            if b < s.len() {
                assert(!same_path(s[a].0, s[b].0));
            } else {
                assert(!same_path(s[a].0, path));
            }
        }
    }
}

fn find_entry(entries: &Vec<(String, CachedEntry)>, path: &str) -> (r: usize)
    ensures
        r == entry_at(entry_views(entries@), path@, 0),
        r <= entries@.len(),
{
    let ghost s = entry_views(entries@);
    let mut i: usize = 0;
    while i < entries.len() && !is_same_path(entries[i].0.as_str(), path)
        invariant
            i <= entries@.len(),
            s == entry_views(entries@),
            entry_at(s, path@, 0) == entry_at(s, path@, i as int),
        decreases entries@.len() - i,
    {
        i = i + 1;
    }
    i
}

fn set_entry(entries: &mut Vec<(String, CachedEntry)>, path: &str, entry: CachedEntry)
    ensures
        entry_views(final(entries)@) == with_entry(entry_views(old(entries)@), path@, entry@),
{
    let i = find_entry(entries, path);
    let ghost s = entry_views(entries@);
    if i < entries.len() {
        let key = entries[i].0.clone();
        entries.set(i, (key, entry));
        proof {
            assert(entry_views(entries@) =~= s.update(i as int, (s[i as int].0, entry@)));
        }
    } else {
        entries.push((path.to_owned(), entry));
        proof {
            assert(entry_views(entries@) =~= s.push((path@, entry@)));
        }
    }
}

// ---------------------------------------------------------------------------
// The saved form
// ---------------------------------------------------------------------------

/// An entry as JSON.
pub open spec fn entry_json(e: EntryView) -> JsonView {
    JsonView::Object(
        seq![("hash"@, JsonView::Text(e.hash)), ("mtime"@, JsonView::Count(e.mtime))],
    )
}

/// Entries as JSON.
pub open spec fn entries_json(s: Seq<(Seq<char>, EntryView)>) -> JsonView {
    JsonView::Object(s.map_values(|e: (Seq<char>, EntryView)| (e.0, entry_json(e.1))))
}

/// The entry that a hash and a time stand for, where they are of the right
/// kind.
pub open spec fn entry_of_parts(hash: Option<JsonView>, mtime: Option<JsonView>) -> Option<
    EntryView,
> {
    match (hash, mtime) {
        (Some(JsonView::Text(h)), Some(JsonView::Count(n))) => Some(
            EntryView { hash: h, mtime: n },
        ),
        _ => None,
    }
}

/// The entry that a JSON value stands for: an object with `hash` and `mtime`,
/// or a list of the two.
pub open spec fn entry_of(v: JsonView) -> Option<EntryView> {
    match v {
        JsonView::List(s) => if s.len() == 2 {
            entry_of_parts(Some(s[0]), Some(s[1]))
        } else {
            None
        },
        _ => entry_of_parts(member_of(v, "hash"@), member_of(v, "mtime"@)),
    }
}

/// The entries that object members stand for; `None` where one does not.
pub open spec fn entries_of(m: Seq<(Seq<char>, JsonView)>) -> Option<Seq<(Seq<char>, EntryView)>>
    decreases m.len(),
{
    if m.len() == 0 {
        Some(Seq::empty())
    } else {
        match (entries_of(m.drop_last()), entry_of(m.last().1)) {
            (Some(s), Some(e)) => Some(with_entry(s, m.last().0, e)),
            _ => None,
        }
    }
}

/// The entries that a saved text stands for; `None` where it is unusable.
pub open spec fn saved_entries(src: Seq<char>) -> Option<Seq<(Seq<char>, EntryView)>> {
    match parsed_json(src) {
        Some(JsonView::Object(m)) => entries_of(m),
        _ => None,
    }
}

/// The entries of an optional saved text; none where it is unusable.
pub open spec fn restored(saved: Option<Seq<char>>) -> Seq<(Seq<char>, EntryView)> {
    match saved {
        Some(src) => match saved_entries(src) {
            Some(s) => s,
            None => Seq::empty(),
        },
        None => Seq::empty(),
    }
}

fn read_parts(hash: Option<&serde_json::Value>, mtime: Option<&serde_json::Value>) -> (r: Option<
    CachedEntry,
>)
    ensures
        match r {
            Some(e) => entry_of_parts(
                crate::json::opt_json(hash),
                crate::json::opt_json(mtime),
            ) == Some(e@),
            None => entry_of_parts(
                crate::json::opt_json(hash),
                crate::json::opt_json(mtime),
            ) is None,
        },
{
    match (hash, mtime) {
        (Some(h), Some(m)) => match json_text(h) {
            Some(text) => match json_amount(m) {
                Some(n) => Some(CachedEntry { hash: text.to_owned(), mtime: n }),
                None => None,
            },
            None => None,
        },
        _ => None,
    }
}

fn read_entry(v: &serde_json::Value) -> (r: Option<CachedEntry>)
    ensures
        match r {
            Some(e) => entry_of(json_view(*v)) == Some(e@),
            None => entry_of(json_view(*v)) is None,
        },
{
    match json_items(v) {
        Some(s) => {
            proof {
                assert(json_views(s@).len() == s@.len());
            }
            if s.len() == 2 {
                read_parts(Some(&s[0]), Some(&s[1]))
            } else {
                None
            }
        },
        None => read_parts(json_get(v, "hash"), json_get(v, "mtime")),
    }
}

/// The entries that object members stand for; `None` where one does not.
pub fn read_entries(members: &Vec<(String, serde_json::Value)>) -> (r: Option<
    Vec<(String, CachedEntry)>,
>)
    ensures
        match r {
            Some(v) => entries_of(member_views(members@)) == Some(entry_views(v@)),
            None => entries_of(member_views(members@)) is None,
        },
{
    let ghost m = member_views(members@);
    let mut out: Vec<(String, CachedEntry)> = Vec::new();
    let mut i: usize = 0;
    proof {
        assert(entry_views(out@) =~= Seq::empty());
    }
    while i < members.len()
        invariant
            i <= members@.len(),
            m == member_views(members@),
            entries_of(m.take(i as int)) == Some(entry_views(out@)),
        decreases members@.len() - i,
    {
        proof {
            assert(m.take(i + 1).drop_last() =~= m.take(i as int));
            assert(m.take(i + 1).last() == (
                members@[i as int].0@,
                json_view(members@[i as int].1),
            ));
        }
        match read_entry(&members[i].1) {
            Some(e) => {
                set_entry(&mut out, members[i].0.as_str(), e);
            },
            None => {
                proof {
                    assert(entries_of(m.take(i + 1)) is None);
                    lemma_unusable(m, i + 1);
                }
                return None;
            },
        }
        i = i + 1;
    }
    proof {
        assert(m.take(members@.len() as int) =~= m);
    }
    Some(out)
}

/// The entries that a saved text stands for; `None` where it is unusable.
fn load_from_text(src: &str) -> (r: Option<Vec<(String, CachedEntry)>>)
    ensures
        match r {
            Some(v) => saved_entries(src@) == Some(entry_views(v@)),
            None => saved_entries(src@) is None,
        },
{
    let value = match parse_json(src) {
        Ok(v) => v,
        Err(_) => {
            return None;
        },
    };
    match json_members(&value) {
        Some(m) => read_entries(&m),
        None => None,
    }
}

/// Members are unusable when their beginning is.
proof fn lemma_unusable(m: Seq<(Seq<char>, JsonView)>, n: int)
    requires
        0 <= n <= m.len(),
        entries_of(m.take(n)) is None,
    ensures
        entries_of(m) is None,
    decreases m.len(),
{
    if n < m.len() {
        assert(m.drop_last().take(n) =~= m.take(n));
        lemma_unusable(m.drop_last(), n);
    } else {
        assert(m.take(n) =~= m);
    }
}

/// Loaded paths are distinct.
proof fn lemma_loaded_distinct(m: Seq<(Seq<char>, JsonView)>)
    ensures
        entries_of(m) matches Some(s) ==> distinct_paths(s),
    decreases m.len(),
{
    if m.len() > 0 {
        lemma_loaded_distinct(m.drop_last());
        match (entries_of(m.drop_last()), entry_of(m.last().1)) {
            (Some(s), Some(e)) => {
                entries_are_set_one_at_a_time(s, m.last().0, e, m.last().0);
            },
            _ => {},
        }
    }
}

fn save_entry(e: &CachedEntry) -> (r: serde_json::Value)
    ensures
        json_view(r) == entry_json(e@),
{
    let mut m: Vec<(String, serde_json::Value)> = Vec::new();
    m.push(member("hash", json_string(e.hash.as_str())));
    m.push(member("mtime", json_count(e.mtime)));
    proof {
        reveal_strlit("hash");
        assert("hash"@.len() == 4);
        reveal_strlit("mtime");
        assert("mtime"@.len() == 5);
        assert(member_views(m@) =~= entry_json(e@)->Object_0);
    }
    json_object(m)
}

/// Saved entries are plain.
proof fn lemma_entries_plain(s: Seq<(Seq<char>, EntryView)>)
    ensures
        members_are_plain(entries_json(s)->Object_0, 99),
    decreases s.len(),
{
    let m = entries_json(s)->Object_0;
    if s.len() > 0 {
        lemma_entries_plain(s.drop_last());
        assert(m.drop_last() =~= entries_json(s.drop_last())->Object_0);
        let e = m.last().1;
        let inner = e->Object_0;
        assert(inner.drop_last().drop_last().len() == 0);
        assert(members_are_plain(inner.drop_last().drop_last(), 98));
        assert(is_plain(inner.drop_last().last().1, 98));
        assert(members_are_plain(inner.drop_last(), 98));
        assert(is_plain(inner.last().1, 98));
        assert(members_are_plain(inner, 98));
        assert(is_plain(e, 99));
    }
}

/// An entry is read back from its JSON form.
proof fn lemma_entry_reads_back(e: EntryView)
    ensures
        entry_of(entry_json(e)) == Some(e),
{
    reveal_strlit("hash");
    assert("hash"@.len() == 4);
    reveal_strlit("mtime");
    assert("mtime"@.len() == 5);
    let m = entry_json(e)->Object_0;
    assert(m.skip(1)[0] == m[1]);
    assert(lookup(m, "hash"@) == Some(m[0].1));
    assert(lookup(m.skip(1), "mtime"@) == Some(m[1].1));
    assert(lookup(m, "mtime"@) == Some(m[1].1));
}

/// Entries of distinct paths are read back from their JSON form.
proof fn lemma_entries_read_back(s: Seq<(Seq<char>, EntryView)>)
    requires
        distinct_paths(s),
    ensures
        entries_of(entries_json(s)->Object_0) == Some(s),
    decreases s.len(),
{
    let m = entries_json(s)->Object_0;
    if s.len() > 0 {
        let head = s.drop_last();
        assert(distinct_paths(head)) by {
            assert forall|i: int, j: int| #![trigger head[i], head[j]] 0 <= i < j < head.len() implies
                !same_path(head[i].0, head[j].0) by {
                assert(!same_path(s[i].0, s[j].0));
            }
        }
        lemma_entries_read_back(head);
        assert(m.drop_last() =~= entries_json(head)->Object_0);
        let (path, e) = s.last();
        lemma_entry_reads_back(e);
        assert forall|j: int| 0 <= j < head.len() implies !same_path((#[trigger] head[j]).0, path) by {
            assert(!same_path(s[j].0, s[s.len() - 1].0));
        }
        lemma_entry_at_is(head, path, 0, head.len() as int);
        assert(with_entry(head, path, e) =~= s);
    } else {
        assert(s =~= Seq::empty());
    }
}

// ---------------------------------------------------------------------------
// The file cache
// ---------------------------------------------------------------------------

/// The files that were seen, with the hash of their contents.
#[derive(Debug, PartialEq, Eq)]
pub struct FileCache {
    entries: Vec<(String, CachedEntry)>,
    cache_dir: String,
}

/// Whether a hash differs from what a cache knows of a file. A file that it
/// does not know differs from every hash.
pub open spec fn hash_differs(
    s: Seq<(Seq<char>, EntryView)>,
    path: Seq<char>,
    hash: Seq<char>,
) -> bool {
    match entry_for(s, path) {
        Some(e) => e.hash != hash,
        None => true,
    }
}

/// Whether contents differ from what a cache knows of a file. A file that it
/// does not know has changed; one that cannot be read has not.
pub open spec fn changed_since(
    s: Seq<(Seq<char>, EntryView)>,
    path: Seq<char>,
    contents: Option<Seq<u8>>,
) -> bool {
    match contents {
        Some(b) => hash_differs(s, path, sha256_hex(b)),
        None => false,
    }
}

/// Optional contents as plain data.
pub open spec fn opt_bytes(o: Option<Vec<u8>>) -> Option<Seq<u8>> {
    match o {
        Some(b) => Some(b@),
        None => None,
    }
}

impl FileCache {
    /// The entries.
    pub closed spec fn known(&self) -> Seq<(Seq<char>, EntryView)> {
        entry_views(self.entries@)
    }

    /// The directory of the cache.
    pub closed spec fn directory(&self) -> Seq<char> {
        self.cache_dir@
    }

    #[verifier::type_invariant]
    spec fn well_formed(self) -> bool {
        distinct_paths(entry_views(self.entries@))
    }

    /// A cache below the workspace root, with the entries of the saved text;
    /// empty where there is none or it is unusable.
    pub fn new(workspace_root: &str, saved: Option<&str>) -> (r: FileCache)
        ensures
            r.known() == restored(crate::diff::opt_str(saved)),
            r.directory() == cache_directory(workspace_root@),
    {
        let loaded = match saved {
            Some(src) => load_from_text(src),
            None => None,
        };
        let entries: Vec<(String, CachedEntry)> = match loaded {
            Some(v) => {
                proof {
                    let m = parsed_json(saved->0@)->0->Object_0;
                    lemma_loaded_distinct(m);
                }
                v
            },
            None => {
                let none: Vec<(String, CachedEntry)> = Vec::new();
                proof {
                    assert(entry_views(none@) =~= Seq::empty());
                }
                none
            },
        };
        FileCache { entries, cache_dir: cache_dir_of(workspace_root) }
    }

    /// Where the cache is saved.
    pub fn save_path(&self) -> (r: String)
        ensures
            r@ == path_joined(self.directory(), "file-cache.json"@),
    {
        join_path(self.cache_dir.as_str(), "file-cache.json")
    }

    /// Whether a hash is another than the recorded one of a file.
    pub fn differs(&self, file: &str, hash: &str) -> (r: bool)
        ensures
            r == hash_differs(self.known(), file@, hash@),
    {
        let i = find_entry(&self.entries, file);
        proof {
            assert(entry_views(self.entries@).len() == self.entries@.len());
        }
        if i < self.entries.len() {
            !same(self.entries[i].1.hash.as_str(), hash)
        } else {
            true
        }
    }

    /// Whether a file has changed since it was recorded.
    pub fn has_changed(&self, file: &str, contents: &Option<Vec<u8>>) -> (r: bool)
        ensures
            r == changed_since(self.known(), file@, opt_bytes(*contents)),
    {
        match file_hash(contents) {
            None => false,
            Some(hash) => self.differs(file, hash.as_str()),
        }
    }

    /// Records the entry of a file.
    pub fn set(&mut self, file: &str, entry: CachedEntry)
        ensures
            final(self).directory() == old(self).directory(),
            final(self).known() == with_entry(old(self).known(), file@, entry@),
    {
        let ghost before = entry_views(self.entries@);
        proof {
            use_type_invariant(&*self);
            entries_are_set_one_at_a_time(before, file@, entry@, file@);
        }
        let mut entries: Vec<(String, CachedEntry)> = Vec::new();
        std::mem::swap(&mut entries, &mut self.entries);
        set_entry(&mut entries, file, entry);
        self.entries = entries;
    }

    /// Records a file, where it can be read.
    pub fn record(&mut self, file: &str, contents: &Option<Vec<u8>>, mtime: u64)
        ensures
            final(self).directory() == old(self).directory(),
            final(self).known() == (match opt_bytes(*contents) {
                Some(b) => with_entry(
                    old(self).known(),
                    file@,
                    EntryView { hash: sha256_hex(b), mtime: mtime as nat },
                ),
                None => old(self).known(),
            }),
    {
        match file_hash(contents) {
            None => {},
            Some(hash) => {
                self.set(file, CachedEntry { hash, mtime });
            },
        }
    }

    /// The text that saves the cache. A cache that is made from it knows the
    /// same files.
    pub fn save(&self) -> (r: String)
        ensures
            r@ == compact_text(entries_json(self.known())),
            restored(Some(r@)) == self.known(),
    {
        proof {
            use_type_invariant(self);
        }
        let ghost s = entry_views(self.entries@);
        let ghost want = entries_json(s)->Object_0;
        let mut m: Vec<(String, serde_json::Value)> = Vec::new();
        let mut i: usize = 0;
        while i < self.entries.len()
            invariant
                i <= self.entries@.len(),
                s == entry_views(self.entries@),
                m@.len() == i,
                forall|j: int|
                    0 <= j < i ==> (#[trigger] m@[j]).0@ == s[j].0 && json_view(m@[j].1)
                        == entry_json(s[j].1),
            decreases self.entries@.len() - i,
        {
            m.push(member(self.entries[i].0.as_str(), save_entry(&self.entries[i].1)));
            i = i + 1;
        }
        proof {
            assert(member_views(m@) =~= want);
            assert forall|i: int, j: int| #![trigger want[i], want[j]] 0 <= i < j < want.len() implies
                want[i].0 != want[j].0 by {
                assert(!same_path(s[i].0, s[j].0));
            }
            lemma_entries_plain(s);
            lemma_entries_read_back(s);
        }
        let v = json_object(m);
        proof {
            assert(json_view(v) == entries_json(s));
            assert(is_plain(json_view(v), 100));
        }
        print_compact(&v)
    }
}

/// A recorded file has not changed, under any spelling of its path, until its
/// contents hash differently; what is known of other files stays.
pub proof fn recorded_files_are_unchanged(
    s: Seq<(Seq<char>, EntryView)>,
    file: Seq<char>,
    contents: Seq<u8>,
    mtime: nat,
    other: Seq<char>,
    now: Seq<u8>,
)
    ensures
        ({
            let after = with_entry(s, file, EntryView { hash: sha256_hex(contents), mtime });
            &&& same_path(file, other) ==> changed_since(after, other, Some(now)) == (sha256_hex(
                now,
            ) != sha256_hex(contents))
            &&& same_path(file, other) ==> !changed_since(after, other, Some(contents))
            &&& !same_path(file, other) ==> changed_since(after, other, Some(now))
                == changed_since(s, other, Some(now))
        }),
{
    entries_are_set_one_at_a_time(
        s,
        file,
        EntryView { hash: sha256_hex(contents), mtime },
        other,
    );
}

// ---------------------------------------------------------------------------
// The content cache
// ---------------------------------------------------------------------------

/// A value in a cache. Contracts speak of the value itself.
pub struct Kept<V> {
    pub value: V,
}

impl<V> View for Kept<V> {
    type V = V;

    open spec fn view(&self) -> V {
        self.value
    }
}

/// The values for hashes, of several for one hash the last.
pub open spec fn kept_values<V>(saved: Seq<(String, V)>) -> Seq<(Seq<char>, V)>
    decreases saved.len(),
{
    if saved.len() == 0 {
        Seq::empty()
    } else {
        put(kept_values(saved.drop_last()), saved.last().0@, saved.last().1)
    }
}

/// Values kept by the hash of the contents that they were computed from.
pub struct ContentHashCache<V> {
    pub store: TextMap<Kept<V>>,
    pub cache_dir: String,
    /// Name of the cache; it is saved in a file of that name.
    pub name: String,
}

impl<V> ContentHashCache<V> {
    /// A cache below the workspace root that holds what was saved; empty where
    /// nothing was.
    pub fn new(workspace_root: &str, name: &str, saved: Option<Vec<(String, V)>>) -> (r:
        ContentHashCache<V>)
        ensures
            r.store@ == (match saved {
                Some(v) => kept_values(v@),
                None => Seq::empty(),
            }),
            r.cache_dir@ == cache_directory(workspace_root@),
            r.name@ == name@,
    {
        let mut cache = ContentHashCache {
            store: TextMap::new(),
            cache_dir: cache_dir_of(workspace_root),
            name: name.to_owned(),
        };
        match saved {
            Some(v) => {
                let ghost all = v@;
                let n: usize = v.len();
                let mut back = crate::order::reversed(v);
                let mut i: usize = 0;
                while i < n
                    invariant
                        i <= n,
                        n == all.len(),
                        back@.len() == n - i,
                        forall|j: int|
                            0 <= j < back@.len() ==> #[trigger] back@[j] == all[all.len() - 1 - j],
                        cache.store@ == kept_values(all.take(i as int)),
                        cache.cache_dir@ == cache_directory(workspace_root@),
                        cache.name@ == name@,
                    decreases n - i,
                {
                    let entry = back.pop().unwrap();
                    proof {
                        assert(entry == all[i as int]);
                        assert(all.take(i + 1).drop_last() =~= all.take(i as int));
                        assert(all.take(i + 1).last() == all[i as int]);
                    }
                    cache.insert(entry.0, entry.1);
                    i = i + 1;
                }
                proof {
                    assert(all.take(n as int) =~= all);
                }
            },
            None => {},
        }
        cache
    }

    /// Where the cache is saved.
    pub fn save_path(&self) -> (r: String)
        ensures
            r@ == path_joined(self.cache_dir@, self.name@ + ".json"@),
    {
        let mut file = self.name.clone();
        file.append(".json");
        join_path(self.cache_dir.as_str(), file.as_str())
    }

    /// The value for a hash, where there is one.
    pub fn get(&self, hash: &str) -> (r: Option<&V>)
        ensures
            match r {
                Some(v) => lookup(self.store@, hash@) == Some(*v),
                None => lookup(self.store@, hash@) is None,
            },
    {
        match self.store.get(hash) {
            Some(k) => Some(&k.value),
            None => None,
        }
    }

    /// Keeps a value for a hash.
    pub fn insert(&mut self, hash: String, value: V)
        ensures
            final(self).store@ == put(old(self).store@, hash@, value),
            final(self).cache_dir == old(self).cache_dir,
            final(self).name == old(self).name,
    {
        self.store.insert(hash.as_str(), Kept { value });
    }
}

/// What a cache holds for a hash is what was saved for it last; what was not
/// saved it does not hold.
pub proof fn saved_values_are_kept<V>(saved: Seq<(String, V)>, hash: Seq<char>)
    ensures
        match lookup(kept_values(saved), hash) {
            Some(v) => exists|i: int|
                0 <= i < saved.len() && (#[trigger] saved[i]).0@ == hash && saved[i].1 == v
                    && forall|j: int| i < j < saved.len() ==> (#[trigger] saved[j]).0@ != hash,
            None => forall|i: int| 0 <= i < saved.len() ==> (#[trigger] saved[i]).0@ != hash,
        },
    decreases saved.len(),
{
    if saved.len() > 0 {
        let d = saved.drop_last();
        let last = saved.last();
        saved_values_are_kept(d, hash);
        crate::textmap::set_values_come_back(kept_values(d), last.0@, last.1, hash);
        assert(saved[saved.len() - 1] == last);
        if last.0@ != hash {
            match lookup(kept_values(d), hash) {
                Some(v) => {
                    let i = choose|i: int|
                        0 <= i < d.len() && (#[trigger] d[i]).0@ == hash && d[i].1 == v
                            && forall|j: int| i < j < d.len() ==> (#[trigger] d[j]).0@ != hash;
                    assert(saved[i] == d[i]);
                    assert forall|j: int| i < j < saved.len() implies (#[trigger] saved[j]).0@
                        != hash by {
                        if j < d.len() {
                            assert(d[j] == saved[j]);
                        }
                    }
                },
                None => {
                    assert forall|i: int| 0 <= i < saved.len() implies (#[trigger] saved[i]).0@
                        != hash by {
                        if i < d.len() {
                            assert(d[i] == saved[i]);
                        }
                    }
                },
            }
        }
    }
}

/// A file that a cache does not know has changed, whatever its contents; one
/// that cannot be read has not; one that it knows has changed just where its
/// contents hash otherwise than recorded.
pub proof fn changes_are_told_by_hash(
    s: Seq<(Seq<char>, EntryView)>,
    path: Seq<char>,
    now: Seq<u8>,
)
    ensures
        !changed_since(s, path, None),
        (forall|i: int| 0 <= i < s.len() ==> !same_path((#[trigger] s[i]).0, path))
            ==> changed_since(s, path, Some(now)),
        forall|i: int|
            0 <= i < s.len() && distinct_paths(s) && same_path((#[trigger] s[i]).0, path) ==> (
            changed_since(s, path, Some(now)) <==> s[i].1.hash != sha256_hex(now)),
{
    lemma_entry_at(s, path, 0);
    let k = entry_at(s, path, 0);
    assert forall|i: int|
        0 <= i < s.len() && distinct_paths(s) && same_path((#[trigger] s[i]).0, path) implies (
    changed_since(s, path, Some(now)) <==> s[i].1.hash != sha256_hex(now)) by {
        if k < i {
            assert(!same_path(s[k].0, s[i].0));
        }
    }
}

/// An entry is read from an object with a text `hash` and a count `mtime`, or
/// from a list of just the two, and from nothing else.
pub proof fn entries_are_read_from_both_forms(v: JsonView, hash: Seq<char>, mtime: nat)
    ensures
        v is Object ==> (entry_of(v) == Some(EntryView { hash, mtime }) <==> member_of(v, "hash"@)
            == Some(JsonView::Text(hash)) && member_of(v, "mtime"@) == Some(
            JsonView::Count(mtime),
        )),
        v is List ==> (entry_of(v) == Some(EntryView { hash, mtime }) <==> v->List_0 =~= seq![
            JsonView::Text(hash),
            JsonView::Count(mtime),
        ]),
        !(v is Object) && !(v is List) ==> entry_of(v) is None,
{
    if let JsonView::List(s) = v {
        let want = seq![JsonView::Text(hash), JsonView::Count(mtime)];
        if s.len() == 2 && s[0] == want[0] && s[1] == want[1] {
            assert(s =~= want);
        }
    }
}

/// Saved members are read as a whole or not at all; where several are for one
/// path, the last counts.
pub proof fn saved_members_are_read_as_a_whole(m: Seq<(Seq<char>, JsonView)>, path: Seq<char>)
    ensures
        entries_of(m) is None <==> exists|i: int|
            0 <= i < m.len() && entry_of((#[trigger] m[i]).1) is None,
        entries_of(m) matches Some(s) ==> match entry_for(s, path) {
            Some(e) => exists|i: int|
                0 <= i < m.len() && same_path((#[trigger] m[i]).0, path) && entry_of(m[i].1)
                    == Some(e) && forall|j: int|
                    i < j < m.len() ==> !same_path((#[trigger] m[j]).0, path),
            None => forall|i: int| 0 <= i < m.len() ==> !same_path((#[trigger] m[i]).0, path),
        },
    decreases m.len(),
{
    if m.len() > 0 {
        let d = m.drop_last();
        let last = m.last();
        saved_members_are_read_as_a_whole(d, path);
        assert(m[m.len() - 1] == last);
        if entries_of(d) is None {
            let i = choose|i: int| 0 <= i < d.len() && entry_of((#[trigger] d[i]).1) is None;
            assert(m[i] == d[i]);
        } else {
            if entry_of(last.1) is Some {
                assert forall|i: int| 0 <= i < m.len() implies entry_of((#[trigger] m[i]).1) is Some by {
                    if i < d.len() {
                        assert(d[i] == m[i]);
                    }
                }
                let s = entries_of(d)->0;
                let e = entry_of(last.1)->0;
                entries_are_set_one_at_a_time(s, last.0, e, path);
                if !same_path(last.0, path) {
                    match entry_for(s, path) {
                        Some(x) => {
                            let i = choose|i: int|
                                0 <= i < d.len() && same_path((#[trigger] d[i]).0, path)
                                    && entry_of(d[i].1) == Some(x) && forall|j: int|
                                    i < j < d.len() ==> !same_path((#[trigger] d[j]).0, path);
                            assert(m[i] == d[i]);
                            assert forall|j: int| i < j < m.len() implies !same_path(
                                (#[trigger] m[j]).0,
                                path,
                            ) by {
                                if j < d.len() {
                                    assert(d[j] == m[j]);
                                }
                            }
                        },
                        None => {
                            assert forall|i: int| 0 <= i < m.len() implies !same_path(
                                (#[trigger] m[i]).0,
                                path,
                            ) by {
                                if i < d.len() {
                                    assert(d[i] == m[i]);
                                }
                            }
                        },
                    }
                }
            }
        }
    } else {
        lemma_entry_at(Seq::empty(), path, 0);
    }
}

/// A saved text restores the entries of its object; a text that is none, or is
/// unusable, restores nothing.
pub proof fn only_objects_restore_entries(src: Seq<char>)
    ensures
        parsed_json(src) is None ==> restored(Some(src)).len() == 0,
        parsed_json(src) matches Some(v) ==> (!(v is Object) ==> restored(Some(src)).len() == 0),
        parsed_json(src) matches Some(JsonView::Object(m)) ==> (entries_of(m) matches Some(s)
            ==> restored(Some(src)) == s),
        restored(None).len() == 0,
{
}

} // verus!
