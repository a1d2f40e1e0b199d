use vstd::prelude::*;

use crate::objects::Commit;
use crate::text::{trim, trimmed, starts_with, drop_chars, join2, join3, char_count, chars_of, string_of};
use vstd::utf8::{encode_utf8, is_char_boundary};

verus! {

/// A resolved commit record ready for display.
pub struct LogEntry {
    pub hash: String,
    pub commit: Commit,
    /// True only for the tip commit (the one HEAD currently points to).
    pub is_head: bool,
    /// Branch name HEAD resolves through, if any (e.g. "main").
    pub branch: Option<String>,
}

/// What the HEAD file names.
#[derive(Debug)]
pub enum HeadTarget {
    /// `ref: <ref_name>`; `branch` is the name without a leading `refs/heads/`.
    Branch { ref_name: String, branch: String },
    /// A raw commit hash (detached HEAD).
    Detached { hash: String },
    /// Nothing.
    Empty,
}

/// The text of an optional string.
pub open spec fn opt_text(o: Option<String>) -> Option<Seq<char>> {
    match o {
        Some(s) => Some(s@),
        None => None,
    }
}

/// The ref that HEAD content names, if it is `ref: <name>` (surrounding whitespace aside).
pub open spec fn head_ref_name(content: Seq<char>) -> Option<Seq<char>> {
    let t = trimmed(content);
    if "ref: "@.is_prefix_of(t) {
        Some(t.subrange(5, t.len() as int))
    } else {
        None
    }
}

/// The branch name of a ref: without a leading `refs/heads/`.
pub open spec fn short_branch(ref_name: Seq<char>) -> Seq<char> {
    if "refs/heads/"@.is_prefix_of(ref_name) {
        ref_name.subrange(11, ref_name.len() as int)
    } else {
        ref_name
    }
}

/// Reads the content of the HEAD file.
pub fn parse_head(content: &str) -> (t: HeadTarget)
    ensures
        match t {
            HeadTarget::Branch { ref_name, branch } => head_ref_name(content@) == Some(ref_name@)
                && branch@ == short_branch(ref_name@),
            HeadTarget::Detached { hash } => head_ref_name(content@) is None && trimmed(content@).len()
                > 0 && hash@ == trimmed(content@),
            HeadTarget::Empty => head_ref_name(content@) is None && trimmed(content@).len() == 0,
        },
{
    proof {
        reveal_strlit("ref: ");
        reveal_strlit("refs/heads/");
    }
    let t = trim(content);
    if starts_with(t.as_str(), "ref: ") {
        let ref_name = drop_chars(t.as_str(), 5);
        let branch = if starts_with(ref_name.as_str(), "refs/heads/") {
            drop_chars(ref_name.as_str(), 11)
        } else {
            ref_name.clone()
        };
        HeadTarget::Branch { ref_name, branch }
    } else if char_count(t.as_str()) > 0 {
        HeadTarget::Detached { hash: t }
    } else {
        HeadTarget::Empty
    }
}

/// The commit a branch ref file names: its trimmed content, unless that is blank.
pub open spec fn ref_commit(content: Seq<char>) -> Option<Seq<char>> {
    if trimmed(content).len() > 0 {
        Some(trimmed(content))
    } else {
        None
    }
}

/// Resolves HEAD to (commit hash, branch name). For a branch, `ref_content` is the
/// content of its ref file, `None` when that file does not exist.
pub fn resolve_head(target: HeadTarget, ref_content: Option<String>) -> (r: (Option<String>, Option<String>))
    ensures
        match target {
            HeadTarget::Branch { ref_name, branch } => opt_text(r.1) == Some(branch@) && opt_text(r.0)
                == match ref_content {
                Some(c) => ref_commit(c@),
                None => None,
            },
            HeadTarget::Detached { hash } => opt_text(r.0) == Some(hash@) && r.1 is None,
            HeadTarget::Empty => r.0 is None && r.1 is None,
        },
{
    match target {
        HeadTarget::Branch { ref_name, branch } => {
            match ref_content {
                None => (None, Some(branch)),
                Some(c) => {
                    let hash = trim(c.as_str());
                    if char_count(hash.as_str()) == 0 {
                        (None, Some(branch))
                    } else {
                        (Some(hash), Some(branch))
                    }
                },
            }
        },
        HeadTarget::Detached { hash } => (Some(hash), None),
        HeadTarget::Empty => (None, None),
    }
}

/// Refuses a commit hash too short to name a loose object.
pub fn check_commit_hash(hash: &str) -> (r: Result<(), String>)
    ensures
        r is Ok <==> vstd::utf8::encode_utf8(hash@).len() >= 3,
        r matches Err(m) ==> m@ == "Corrupt commit hash (too short): "@ + hash@,
{
    if hash.as_bytes().len() < 3 {
        Err(join2("Corrupt commit hash (too short): ", hash))
    } else {
        Ok(())
    }
}

/// The first parent of a commit, if it has any.
pub open spec fn first_parent(c: Commit) -> Option<Seq<char>> {
    if c.parents@.len() > 0 {
        Some(c.parents@[0]@)
    } else {
        None
    }
}

/// `entries` is the history walked so far from `head`: the first entry is the HEAD
/// commit and carries the branch, each next entry is the first parent of the one before,
/// and `pending` is the hash still to load (the first parent of the last commit).
pub open spec fn first_parent_chain(
    entries: Seq<LogEntry>,
    head: Option<Seq<char>>,
    branch: Option<Seq<char>>,
    pending: Option<Seq<char>>,
) -> bool {
    &&& forall|i: int| 0 <= i < entries.len() ==> (#[trigger] entries[i]).is_head == (i == 0)
    &&& forall|i: int| 0 <= i < entries.len() ==> opt_text((#[trigger] entries[i]).branch) == (if i == 0 {
        branch
    } else {
        None
    })
    &&& entries.len() == 0 ==> pending == head
    &&& entries.len() > 0 ==> head == Some(entries[0].hash@)
    &&& forall|i: int| 0 <= i < entries.len() - 1 ==> first_parent((#[trigger] entries[i]).commit) == Some(
        entries[i + 1].hash@,
    )
    &&& entries.len() > 0 ==> pending == first_parent(entries.last().commit)
}

/// A walk of commit history from HEAD backward along first parents; the caller loads
/// the commit named by `pending` and hands it to `record`, until nothing is pending.
pub struct LogWalk {
    pub entries: Vec<LogEntry>,
    pub head: Option<String>,
    pub branch: Option<String>,
    pub pending: Option<String>,
}

fn copy_opt(o: &Option<String>) -> (r: Option<String>)
    ensures
        r == *o,
{
    match o {
        Some(s) => Some(s.clone()),
        None => None,
    }
}

impl LogWalk {
    /// The walk's invariant: what it has collected is a first-parent chain from HEAD.
    pub open spec fn is_chain(&self) -> bool {
        first_parent_chain(self.entries@, opt_text(self.head), opt_text(self.branch), opt_text(self.pending))
    }

    /// Starts a walk at the commit HEAD resolves to (`None` when there are no commits yet).
    pub fn start(head: Option<String>, branch: Option<String>) -> (w: LogWalk)
        ensures
            w.entries@.len() == 0,
            w.head == head,
            w.branch == branch,
            w.pending == head,
            w.is_chain(),
    {
        let pending = copy_opt(&head);
        LogWalk { entries: Vec::new(), head, branch, pending }
    }

    /// Adds the commit that was pending; what is pending next is its first parent.
    pub fn record(&mut self, commit: Commit)
        requires
            old(self).pending is Some,
            old(self).is_chain(),
        ensures
            final(self).is_chain(),
            final(self).head == old(self).head,
            final(self).branch == old(self).branch,
            final(self).entries@.len() == old(self).entries@.len() + 1,
            final(self).entries@.drop_last() == old(self).entries@,
            final(self).entries@.last().hash@ == old(self).pending->0@,
            final(self).entries@.last().commit == commit,
            opt_text(final(self).pending) == first_parent(commit),
    {
        let first = self.entries.len() == 0;
        let hash = match &self.pending {
            Some(h) => h.clone(),
            None => String::new(),
        };
        let next = if commit.parents.len() > 0 {
            Some(commit.parents[0].clone())
        } else {
            None
        };
        let branch = if first {
            copy_opt(&self.branch)
        } else {
            None
        };
        let ghost before = self.entries@;
        self.entries.push(LogEntry { hash, commit, is_head: first, branch });
        self.pending = next;
        proof {
            let e = self.entries@;
            assert(e.drop_last() =~= before);
            assert forall|i: int| 0 <= i < e.len() - 1 implies first_parent((#[trigger] e[i]).commit) == Some(
                e[i + 1].hash@,
            ) by {
                if i < before.len() - 1 {
                    assert(e[i] == before[i] && e[i + 1] == before[i + 1]);
                } else {
                    assert(e[i] == before.last());
                }
            }
            assert forall|i: int| 0 <= i < e.len() implies (#[trigger] e[i]).is_head == (i == 0) by {
                if i < before.len() {
                    assert(e[i] == before[i]);
                }
            }
            assert forall|i: int| 0 <= i < e.len() implies opt_text((#[trigger] e[i]).branch) == (if i == 0 {
                opt_text(self.branch)
            } else {
                None
            }) by {
                if i < before.len() {
                    assert(e[i] == before[i]);
                }
            }
            if before.len() > 0 {
                assert(e[0] == before[0]);
            }
        }
    }

    /// The entries collected, newest first.
    pub fn into_entries(self) -> (r: Vec<LogEntry>)
        ensures
            r == self.entries,
    {
        self.entries
    }
}

/// Every entry's commit is the one the object store holds under its hash.
pub open spec fn stored_in(entries: Seq<LogEntry>, store: Map<Seq<char>, Commit>) -> bool {
    forall|i: int|
        0 <= i < entries.len() ==> store.contains_key((#[trigger] entries[i]).hash@) && store[entries[i].hash@]
            == entries[i].commit
}

/// An entry that is no longer the tip: no HEAD mark, no branch.
pub open spec fn demoted(e: LogEntry) -> LogEntry {
    LogEntry { hash: e.hash, commit: e.commit, is_head: false, branch: None }
}

/// The walk is determined by HEAD and the object store: two finished walks from the same
/// HEAD over the same store list the same hashes and commits, with the same marks.
pub proof fn law_log_unique(
    a: Seq<LogEntry>,
    b: Seq<LogEntry>,
    head: Option<Seq<char>>,
    branch: Option<Seq<char>>,
    store: Map<Seq<char>, Commit>,
)
    requires
        first_parent_chain(a, head, branch, None),
        first_parent_chain(b, head, branch, None),
        stored_in(a, store),
        stored_in(b, store),
    ensures
        a.len() == b.len(),
        forall|i: int|
            0 <= i < a.len() ==> (#[trigger] a[i]).hash@ == b[i].hash@ && a[i].commit == b[i].commit
                && a[i].is_head == b[i].is_head && opt_text(a[i].branch) == opt_text(b[i].branch),
{
    let n: int = if a.len() < b.len() { a.len() as int } else { b.len() as int };
    if n > 0 {
        assert(a[0].hash@ == b[0].hash@);
    }
    assert forall|i: int| 0 <= i < n implies (#[trigger] a[i]).hash@ == b[i].hash@ by {
        lemma_chain_agree(a, b, head, branch, store, i);
    }
    if a.len() != b.len() {
        if n == 0 {
            if a.len() == 0 {
                assert(b[0].hash@ == b[0].hash@);
            } else {
                assert(a[0].hash@ == a[0].hash@);
            }
        } else {
            assert(a[n - 1].hash@ == b[n - 1].hash@);
            assert(a[n - 1].commit == b[n - 1].commit);
            if a.len() < b.len() {
                assert(a.last() == a[n - 1]);
                assert(first_parent(b[n - 1].commit) == Some(b[n].hash@));
            } else {
                assert(b.last() == b[n - 1]);
                assert(first_parent(a[n - 1].commit) == Some(a[n].hash@));
            }
        }
    }
}

proof fn lemma_chain_agree(
    a: Seq<LogEntry>,
    b: Seq<LogEntry>,
    head: Option<Seq<char>>,
    branch: Option<Seq<char>>,
    store: Map<Seq<char>, Commit>,
    i: int,
)
    requires
        first_parent_chain(a, head, branch, None),
        first_parent_chain(b, head, branch, None),
        stored_in(a, store),
        stored_in(b, store),
        0 <= i < a.len(),
        i < b.len(),
    ensures
        a[i].hash@ == b[i].hash@,
    decreases i,
{
    if i > 0 {
        lemma_chain_agree(a, b, head, branch, store, i - 1);
        assert(a[i - 1].commit == b[i - 1].commit);
        assert(first_parent(a[i - 1].commit) == Some(a[i].hash@));
        assert(first_parent(b[i - 1].commit) == Some(b[i].hash@));
    }
}

/// A commit on HEAD extends the log by one: with the old history finished from the old
/// HEAD, and a new commit whose first parent is the old HEAD stored under a hash the
/// history does not hold, the walk from the new commit lists it first, marked as HEAD with
/// the branch, and then the old history with its marks moved; any finished walk from the
/// new commit over the store is that one.
pub proof fn law_commit_extends_log(
    old: Seq<LogEntry>,
    old_head: Option<Seq<char>>,
    branch: Option<Seq<char>>,
    store: Map<Seq<char>, Commit>,
    new: LogEntry,
    walk: Seq<LogEntry>,
)
    requires
        first_parent_chain(old, old_head, branch, None),
        stored_in(old, store),
        forall|i: int| 0 <= i < old.len() ==> (#[trigger] old[i]).hash@ != new.hash@,
        first_parent(new.commit) == old_head,
        new.is_head,
        opt_text(new.branch) == branch,
        first_parent_chain(walk, Some(new.hash@), branch, None),
        stored_in(walk, store.insert(new.hash@, new.commit)),
    ensures
        walk.len() == old.len() + 1,
        walk[0].hash@ == new.hash@,
        walk[0].commit == new.commit,
        walk[0].is_head,
        opt_text(walk[0].branch) == branch,
        forall|i: int|
            0 <= i < old.len() ==> (#[trigger] old[i]).hash@ == walk[i + 1].hash@ && old[i].commit == walk[i
                + 1].commit && !walk[i + 1].is_head && walk[i + 1].branch is None,
{
    let store2 = store.insert(new.hash@, new.commit);
    let log = seq![new] + old.map_values(|e: LogEntry| demoted(e));
    assert forall|i: int| 0 <= i < old.len() implies #[trigger] log[i + 1] == demoted(old[i]) by {}
    assert(log[0] == new);
    assert(first_parent_chain(log, Some(new.hash@), branch, None)) by {
        assert forall|i: int| 0 <= i < log.len() - 1 implies first_parent((#[trigger] log[i]).commit) == Some(
            log[i + 1].hash@,
        ) by {
            if i > 0 {
                assert(log[i] == demoted(old[i - 1]));
                assert(log[i + 1] == demoted(old[i]));
            } else {
                assert(log[1] == demoted(old[0]));
            }
        }
        assert forall|i: int| 0 <= i < log.len() implies (#[trigger] log[i]).is_head == (i == 0) by {
            if i > 0 {
                assert(log[i] == demoted(old[i - 1]));
            }
        }
        assert forall|i: int| 0 <= i < log.len() implies opt_text((#[trigger] log[i]).branch) == (if i == 0 {
            branch
        } else {
            None
        }) by {
            if i > 0 {
                assert(log[i] == demoted(old[i - 1]));
            }
        }
        if old.len() > 0 {
            assert(log.last() == demoted(old.last()));
        }
    }
    assert(stored_in(log, store2)) by {
        assert forall|i: int| 0 <= i < log.len() implies store2.contains_key((#[trigger] log[i]).hash@)
            && store2[log[i].hash@] == log[i].commit by {
            if i > 0 {
                assert(log[i] == demoted(old[i - 1]));
                assert(old[i - 1].hash@ != new.hash@);
            }
        }
    }
    law_log_unique(walk, log, Some(new.hash@), branch, store2);
    assert forall|i: int| 0 <= i < old.len() implies (#[trigger] old[i]).hash@ == walk[i + 1].hash@
        && old[i].commit == walk[i + 1].commit && !walk[i + 1].is_head && walk[i + 1].branch is None by {
        assert(log[i + 1] == demoted(old[i]));
        assert(walk[i + 1].is_head == (i + 1 == 0));
        assert(opt_text(walk[i + 1].branch) == opt_text(log[i + 1].branch));
    }
}

/// The text with a final carriage return removed.
pub open spec fn strip_cr(s: Seq<char>) -> Seq<char> {
    if s.len() > 0 && s.last() == '\r' {
        s.drop_last()
    } else {
        s
    }
}

/// Splitting text into lines from the left: the finished lines, and the line in progress.
pub open spec fn line_scan(m: Seq<char>) -> (Seq<Seq<char>>, Seq<char>)
    decreases m.len(),
{
    if m.len() == 0 {
        (seq![], seq![])
    } else {
        let (done, cur) = line_scan(m.drop_last());
        if m.last() == '\n' {
            (done.push(strip_cr(cur)), seq![])
        } else {
            (done, cur.push(m.last()))
        }
    }
}

/// The lines of a text as `str::lines` yields them: split at `\n` (a `\r` just before it
/// dropped), with no empty line after a final newline.
pub open spec fn lines_of(m: Seq<char>) -> Seq<Seq<char>> {
    let (done, cur) = line_scan(m);
    if cur.len() > 0 {
        done.push(cur)
    } else {
        done
    }
}

/// The lines of a commit message, as the long log prints them indented.
pub fn message_lines(message: &str) -> (r: Vec<String>)
    ensures
        r@.map_values(|l: String| l@) == lines_of(message@),
{
    let v = chars_of(message);
    let mut done: Vec<String> = Vec::new();
    let mut cur: Vec<char> = Vec::new();
    let n = v.len();
    for i in 0..n
        invariant
            n == v@.len(),
            v@ == message@,
            (done@.map_values(|l: String| l@), cur@) == line_scan(v@.take(i as int)),
    {
        assert(v@.take(i + 1).drop_last() =~= v@.take(i as int));
        assert(v@.take(i + 1).last() == v@[i as int]);
        if v[i] == '\n' {
            let k = cur.len();
            let line = if k > 0 && cur[k - 1] == '\r' {
                crate::text::string_of_range(&cur, 0, k - 1)
            } else {
                string_of(&cur)
            };
            assert(line@ == strip_cr(cur@)) by {
                if k > 0 && cur@[k - 1] == '\r' {
                    assert(cur@.subrange(0, k - 1) =~= cur@.drop_last());
                }
            }
            let ghost before = done@;
            done.push(line);
            assert(done@.map_values(|l: String| l@) =~= before.map_values(|l: String| l@).push(line@));
            cur = Vec::new();
            assert(cur@ =~= Seq::<char>::empty());
        } else {
            cur.push(v[i]);
        }
    }
    assert(v@.take(n as int) =~= v@);
    if cur.len() > 0 {
        let line = string_of(&cur);
        let ghost before = done@;
        done.push(line);
        assert(done@.map_values(|l: String| l@) =~= before.map_values(|l: String| l@).push(line@));
    }
    done
}

/// The decoration after a commit's hash: ` [HEAD -> <branch>]` on the tip of a branch.
pub open spec fn decoration_text(e: LogEntry) -> Seq<char> {
    match e.branch {
        Some(b) => if e.is_head {
            " [HEAD -> "@ + b@ + "]"@
        } else {
            seq![]
        },
        None => seq![],
    }
}

/// The decoration printed after an entry's hash.
pub fn decoration(entry: &LogEntry) -> (r: String)
    ensures
        r@ == decoration_text(*entry),
{
    match &entry.branch {
        Some(b) => {
            if entry.is_head {
                join3(" [HEAD -> ", b.as_str(), "]")
            } else {
                String::new()
            }
        },
        None => String::new(),
    }
}

/// The one-line summary of an entry: the first eight bytes of its hash, its decoration,
/// a space and the first line of its message, trimmed. `None` when the hash cannot be cut
/// after eight bytes.
pub fn oneline(entry: &LogEntry) -> (r: Option<String>)
    ensures
        r is Some <==> is_char_boundary(encode_utf8(entry.hash@), 8),
        r matches Some(t) ==> exists|short: Seq<char>|
            encode_utf8(short) == encode_utf8(entry.hash@).subrange(0, 8) && t@ == short
                + decoration_text(*entry) + " "@ + trimmed(
                if lines_of(entry.commit.message@).len() > 0 {
                    lines_of(entry.commit.message@)[0]
                } else {
                    Seq::<char>::empty()
                },
            ),
{
    if !entry.hash.as_str().is_char_boundary(8) {
        return None;
    }
    let (short, _) = entry.hash.as_str().split_at(8);
    let lines = message_lines(entry.commit.message.as_str());
    let first = if lines.len() > 0 {
        trim(lines[0].as_str())
    } else {
        trim("")
    };
    proof {
        if lines@.len() > 0 {
            assert(lines@.map_values(|l: String| l@)[0] == lines[0]@);
        }
        reveal_strlit("");
    }
    let dec = decoration(entry);
    let mut t = join3(short, dec.as_str(), " ");
    t.append(first.as_str());
    assert(encode_utf8(short@) == encode_utf8(entry.hash@).subrange(0, 8));
    Some(t)
}

} // verus!
