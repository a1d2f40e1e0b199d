use vstd::prelude::*;

use crate::select::{select, lemma_select_take, lemma_select_contains, lemma_select_empty};
use crate::strmap::{StrMap, pairs_map, keys_distinct, has_key, lemma_pairs_map_at};
use crate::objects::hash_view;
use crate::text::{owned, join2, join3};

verus! {

/// How a path differs between two snapshots.
#[derive(PartialEq, Eq, Structural, Clone, Copy, Debug)]
pub enum ChangeType {
    New,
    Modified,
    Deleted,
}

/// One changed path.
#[derive(Debug)]
pub struct Change {
    pub path: String,
    pub change_type: ChangeType,
}

/// What differs between HEAD, the index and the working tree.
#[derive(Debug)]
pub struct Status {
    pub staged: Vec<Change>,
    pub unstaged: Vec<Change>,
    pub untracked: Vec<String>,
}

impl Default for Status {
    fn default() -> (r: Status)
        ensures
            r.staged@.len() == 0,
            r.unstaged@.len() == 0,
            r.untracked@.len() == 0,
    {
        Status { staged: Vec::new(), unstaged: Vec::new(), untracked: Vec::new() }
    }
}

/// A path-and-hash entry, the key taken by its characters.
pub type Entry = (Seq<char>, String);

/// A change as (path, kind).
pub type ChangeView = (Seq<char>, ChangeType);

/// The changes of a list, each as (path, kind).
pub open spec fn changes_view(v: Seq<Change>) -> Seq<ChangeView> {
    v.map_values(|c: Change| (c.path@, c.change_type))
}

/// The paths of a list, each by its characters.
pub open spec fn paths_view(v: Seq<String>) -> Seq<Seq<char>> {
    v.map_values(|s: String| s@)
}

/// An index entry whose path HEAD lacks is a new file.
pub open spec fn new_in_index(head: Map<Seq<char>, String>) -> spec_fn(Entry) -> Option<ChangeView> {
    |p: Entry|
        if !head.contains_key(p.0) {
            Some((p.0, ChangeType::New))
        } else {
            None
        }
}

/// An index entry whose path HEAD records under another hash is modified.
pub open spec fn modified_in_index(head: Map<Seq<char>, String>) -> spec_fn(Entry) -> Option<ChangeView> {
    |p: Entry|
        if head.contains_key(p.0) && head[p.0]@ != p.1@ {
            Some((p.0, ChangeType::Modified))
        } else {
            None
        }
}

/// A HEAD entry whose path the index lacks is deleted.
pub open spec fn deleted_from_head(index: Map<Seq<char>, String>) -> spec_fn(Entry) -> Option<ChangeView> {
    |p: Entry|
        if !index.contains_key(p.0) {
            Some((p.0, ChangeType::Deleted))
        } else {
            None
        }
}

/// Staged changes (index against HEAD): new files in index order, then modified files
/// in index order, then deleted files in HEAD order.
pub open spec fn staged_changes(head: Seq<Entry>, index: Seq<Entry>) -> Seq<ChangeView> {
    select(index, new_in_index(pairs_map(head))) + select(index, modified_in_index(pairs_map(head)))
        + select(head, deleted_from_head(pairs_map(index)))
}

/// An index entry differs from the working tree when the file is gone or hashes differently.
pub open spec fn unstaged_change(working: Map<Seq<char>, String>) -> spec_fn(Entry) -> Option<ChangeView> {
    |p: Entry|
        if working.contains_key(p.0) {
            if working[p.0]@ != p.1@ {
                Some((p.0, ChangeType::Modified))
            } else {
                None
            }
        } else {
            Some((p.0, ChangeType::Deleted))
        }
}

/// Unstaged changes (working tree against index), in index order.
pub open spec fn unstaged_changes(working: Seq<Entry>, index: Seq<Entry>) -> Seq<ChangeView> {
    select(index, unstaged_change(pairs_map(working)))
}

/// A working-tree path that neither the index nor HEAD knows is untracked.
pub open spec fn untracked_path(index: Map<Seq<char>, String>, head: Map<Seq<char>, String>) -> spec_fn(Entry) -> Option<Seq<char>> {
    |p: Entry|
        if !index.contains_key(p.0) && !head.contains_key(p.0) {
            Some(p.0)
        } else {
            None
        }
}

/// Untracked paths, in working-tree order.
pub open spec fn untracked_paths(working: Seq<Entry>, index: Seq<Entry>, head: Seq<Entry>) -> Seq<Seq<char>> {
    select(working, untracked_path(pairs_map(index), pairs_map(head)))
}

/// The label `status` prints before a changed path.
pub open spec fn change_label(t: ChangeType) -> Seq<char> {
    match t {
        ChangeType::New => "new file:  "@,
        ChangeType::Modified => "modified: "@,
        ChangeType::Deleted => "deleted:  "@,
    }
}

/// The label printed before a changed path.
pub fn change_prefix(t: ChangeType) -> (r: &'static str)
    ensures
        r@ == change_label(t),
{
    match t {
        ChangeType::New => "new file:  ",
        ChangeType::Modified => "modified: ",
        ChangeType::Deleted => "deleted:  ",
    }
}

/// The texts of a list of lines.
pub open spec fn line_texts(v: Seq<String>) -> Seq<Seq<char>> {
    v.map_values(|l: String| l@)
}

/// How `status` lists a change: indented, its label, its path.
pub open spec fn change_line(c: ChangeView) -> Seq<char> {
    "        "@ + change_label(c.1) + c.0
}

/// How `status` lists an untracked path: indented.
pub open spec fn path_line(p: Seq<char>) -> Seq<char> {
    "        "@ + p
}

/// The lines `status` prints: the branch, then each non-empty group under its heading and
/// hints, or a note that the tree is clean when all three are empty.
pub open spec fn status_report_lines(
    staged: Seq<ChangeView>,
    unstaged: Seq<ChangeView>,
    untracked: Seq<Seq<char>>,
) -> Seq<Seq<char>> {
    seq!["On branch main"@] + (if staged.len() > 0 {
        seq!["\nChanges to be committed:"@, "  (use \"proto reset <file>...\" to unstage)"@]
            + staged.map_values(|c: ChangeView| change_line(c))
    } else {
        seq![]
    }) + (if unstaged.len() > 0 {
        seq![
            "\nChanges not staged for commit:"@,
            "  (use \"proto add <file>...\" to update what will be committed)"@,
            "  (use \"proto restore <file>...\" to discard changes)"@,
        ] + unstaged.map_values(|c: ChangeView| change_line(c))
    } else {
        seq![]
    }) + (if untracked.len() > 0 {
        seq!["\nUntracked files:"@, "  (use \"proto add <file>...\" to include in what will be committed)"@]
            + untracked.map_values(|p: Seq<char>| path_line(p))
    } else {
        seq![]
    }) + (if staged.len() == 0 && unstaged.len() == 0 && untracked.len() == 0 {
        seq!["\nnothing to commit, working tree clean"@]
    } else {
        seq![]
    })
}

fn push_line(lines: &mut Vec<String>, line: String)
    ensures
        line_texts(final(lines)@) == line_texts(old(lines)@).push(line@),
{
    let ghost before = lines@;
    lines.push(line);
    assert(line_texts(lines@) =~= line_texts(before).push(line@));
}

fn push_change_lines(lines: &mut Vec<String>, changes: &Vec<Change>)
    ensures
        line_texts(final(lines)@) == line_texts(old(lines)@) + changes_view(changes@).map_values(
            |c: ChangeView| change_line(c),
        ),
{
    let ghost start = line_texts(lines@);
    let ghost cv = changes_view(changes@).map_values(|c: ChangeView| change_line(c));
    for i in 0..changes.len()
        invariant
            cv == changes_view(changes@).map_values(|c: ChangeView| change_line(c)),
            line_texts(lines@) == start + cv.take(i as int),
    {
        let c = &changes[i];
        let line = join3("        ", change_prefix(c.change_type), c.path.as_str());
        push_line(lines, line);
        assert(cv.take(i + 1) =~= cv.take(i as int).push(cv[i as int]));
    }
    assert(cv.take(changes@.len() as int) =~= cv);
}

/// The lines `status` prints for a status, in order.
pub fn status_report(status: &Status) -> (r: Vec<String>)
    ensures
        line_texts(r@) == status_report_lines(
            changes_view(status.staged@),
            changes_view(status.unstaged@),
            paths_view(status.untracked@),
        ),
{
    proof {
        reveal_strlit("        ");
    }
    let mut lines: Vec<String> = Vec::new();
    assert(line_texts(lines@) =~= Seq::<Seq<char>>::empty());
    push_line(&mut lines, owned("On branch main"));
    let ghost a = line_texts(lines@);
    if status.staged.len() > 0 {
        push_line(&mut lines, owned("\nChanges to be committed:"));
        push_line(&mut lines, owned("  (use \"proto reset <file>...\" to unstage)"));
        push_change_lines(&mut lines, &status.staged);
    }
    let ghost b = line_texts(lines@);
    if status.unstaged.len() > 0 {
        push_line(&mut lines, owned("\nChanges not staged for commit:"));
        push_line(&mut lines, owned("  (use \"proto add <file>...\" to update what will be committed)"));
        push_line(&mut lines, owned("  (use \"proto restore <file>...\" to discard changes)"));
        push_change_lines(&mut lines, &status.unstaged);
    }
    let ghost c = line_texts(lines@);
    if status.untracked.len() > 0 {
        push_line(&mut lines, owned("\nUntracked files:"));
        push_line(&mut lines, owned("  (use \"proto add <file>...\" to include in what will be committed)"));
        let ghost start = line_texts(lines@);
        let ghost pv = paths_view(status.untracked@).map_values(|p: Seq<char>| path_line(p));
        for i in 0..status.untracked.len()
            invariant
                pv == paths_view(status.untracked@).map_values(|p: Seq<char>| path_line(p)),
                line_texts(lines@) == start + pv.take(i as int),
        {
            let line = join2("        ", status.untracked[i].as_str());
            push_line(&mut lines, line);
            assert(pv.take(i + 1) =~= pv.take(i as int).push(pv[i as int]));
        }
        assert(pv.take(status.untracked@.len() as int) =~= pv);
    }
    if status.staged.len() == 0 && status.unstaged.len() == 0 && status.untracked.len() == 0 {
        push_line(&mut lines, owned("\nnothing to commit, working tree clean"));
    }
    let ghost st = changes_view(status.staged@);
    let ghost un = changes_view(status.unstaged@);
    let ghost ut = paths_view(status.untracked@);
    assert(line_texts(lines@) =~= status_report_lines(st, un, ut));
    lines
}

proof fn lemma_push_change(v: Seq<Change>, c: Change)
    ensures
        changes_view(v.push(c)) == changes_view(v).push((c.path@, c.change_type)),
{
    assert(changes_view(v.push(c)) =~= changes_view(v).push((c.path@, c.change_type)));
}

/// Computes the status from HEAD's tree, the index and the working tree, each a map
/// from relative path to content hash.
pub fn get_status(head: &StrMap<String>, index: &StrMap<String>, working: &StrMap<String>) -> (s: Status)
    ensures
        changes_view(s.staged@) == staged_changes(head.pairs(), index.pairs()),
        changes_view(s.unstaged@) == unstaged_changes(working.pairs(), index.pairs()),
        paths_view(s.untracked@) == untracked_paths(working.pairs(), index.pairs(), head.pairs()),
{
    let mut status = Status::default();
    assert(changes_view(status.staged@) =~= Seq::<ChangeView>::empty());
    assert(changes_view(status.unstaged@) =~= Seq::<ChangeView>::empty());
    assert(paths_view(status.untracked@) =~= Seq::<Seq<char>>::empty());
    compute_staged(head, index, &mut status.staged);
    compute_unstaged(working, index, &mut status.unstaged);
    compute_untracked(working, index, head, &mut status.untracked);
    status
}

fn compute_staged(head: &StrMap<String>, index: &StrMap<String>, staged: &mut Vec<Change>)
    ensures
        changes_view(final(staged)@) == changes_view(old(staged)@) + staged_changes(
            head.pairs(),
            index.pairs(),
        ),
{
    let ghost start = changes_view(staged@);
    let ghost ip = index.pairs();
    let ghost hp = head.pairs();
    // New: in index but not in HEAD
    let n = index.len();
    for i in 0..n
        invariant
            n == ip.len(),
            ip == index.pairs(),
            hp == head.pairs(),
            changes_view(staged@) == start + select(ip.take(i as int), new_in_index(pairs_map(hp))),
    {
        proof {
            lemma_select_take(ip, i as int, new_in_index(pairs_map(hp)));
        }
        let path = index.key_at(i);
        if !head.contains_key(path) {
            let c = Change { path: path.clone(), change_type: ChangeType::New };
            proof {
                lemma_push_change(staged@, c);
            }
            staged.push(c);
        }
    }
    assert(ip.take(n as int) =~= ip);
    let ghost after_new = changes_view(staged@);
    // Modified: in both index and HEAD but with a different hash
    for i in 0..n
        invariant
            n == ip.len(),
            ip == index.pairs(),
            hp == head.pairs(),
            changes_view(staged@) == after_new + select(ip.take(i as int), modified_in_index(pairs_map(hp))),
    {
        proof {
            lemma_select_take(ip, i as int, modified_in_index(pairs_map(hp)));
        }
        let path = index.key_at(i);
        let index_hash = index.value_at(i);
        match head.get(path) {
            Some(head_hash) => {
                if !(*index_hash == *head_hash) {
                    let c = Change { path: path.clone(), change_type: ChangeType::Modified };
                    proof {
                        lemma_push_change(staged@, c);
                    }
                    staged.push(c);
                }
            },
            None => {},
        }
    }
    assert(ip.take(n as int) =~= ip);
    let ghost after_mod = changes_view(staged@);
    // Deleted: in HEAD but not in index
    let m = head.len();
    for i in 0..m
        invariant
            m == hp.len(),
            hp == head.pairs(),
            ip == index.pairs(),
            changes_view(staged@) == after_mod + select(hp.take(i as int), deleted_from_head(pairs_map(ip))),
    {
        proof {
            lemma_select_take(hp, i as int, deleted_from_head(pairs_map(ip)));
        }
        let path = head.key_at(i);
        if !index.contains_key(path) {
            let c = Change { path: path.clone(), change_type: ChangeType::Deleted };
            proof {
                lemma_push_change(staged@, c);
            }
            staged.push(c);
        }
    }
    assert(hp.take(m as int) =~= hp);
}

fn compute_unstaged(working: &StrMap<String>, index: &StrMap<String>, unstaged: &mut Vec<Change>)
    ensures
        changes_view(final(unstaged)@) == changes_view(old(unstaged)@) + unstaged_changes(
            working.pairs(),
            index.pairs(),
        ),
{
    let ghost start = changes_view(unstaged@);
    let ghost ip = index.pairs();
    let ghost wp = working.pairs();
    let n = index.len();
    for i in 0..n
        invariant
            n == ip.len(),
            ip == index.pairs(),
            wp == working.pairs(),
            changes_view(unstaged@) == start + select(ip.take(i as int), unstaged_change(pairs_map(wp))),
    {
        proof {
            lemma_select_take(ip, i as int, unstaged_change(pairs_map(wp)));
        }
        let path = index.key_at(i);
        let index_hash = index.value_at(i);
        match working.get(path) {
            Some(working_hash) => {
                // Modified: in both working tree and index but with a different hash
                if !(*working_hash == *index_hash) {
                    let c = Change { path: path.clone(), change_type: ChangeType::Modified };
                    proof {
                        lemma_push_change(unstaged@, c);
                    }
                    unstaged.push(c);
                }
            },
            None => {
                // Deleted: in index but not in working tree
                let c = Change { path: path.clone(), change_type: ChangeType::Deleted };
                proof {
                    lemma_push_change(unstaged@, c);
                }
                unstaged.push(c);
            },
        }
    }
    assert(ip.take(n as int) =~= ip);
}

fn compute_untracked(
    working: &StrMap<String>,
    index: &StrMap<String>,
    head: &StrMap<String>,
    untracked: &mut Vec<String>,
)
    ensures
        paths_view(final(untracked)@) == paths_view(old(untracked)@) + untracked_paths(
            working.pairs(),
            index.pairs(),
            head.pairs(),
        ),
{
    let ghost start = paths_view(untracked@);
    let ghost f = untracked_path(pairs_map(index.pairs()), pairs_map(head.pairs()));
    let ghost wp = working.pairs();
    let n = working.len();
    for i in 0..n
        invariant
            n == wp.len(),
            wp == working.pairs(),
            f == untracked_path(pairs_map(index.pairs()), pairs_map(head.pairs())),
            paths_view(untracked@) == start + select(wp.take(i as int), f),
    {
        proof {
            lemma_select_take(wp, i as int, f);
        }
        let path = working.key_at(i);
        if !index.contains_key(path) && !head.contains_key(path) {
            let ghost before = untracked@;
            untracked.push(path.clone());
            assert(paths_view(untracked@) =~= paths_view(before).push(path@));
        }
    }
    assert(wp.take(n as int) =~= wp);
}

proof fn lemma_in_map(ps: Seq<Entry>, k: Seq<char>)
    requires
        keys_distinct(ps),
    ensures
        pairs_map(ps).contains_key(k) <==> has_key(ps, k),
        has_key(ps, k) ==> pairs_map(ps)[k] == ps[crate::strmap::key_index(ps, k)].1,
{
    if has_key(ps, k) {
        let i = choose|i: int| 0 <= i < ps.len() && #[trigger] ps[i].0 == k;
        lemma_pairs_map_at(ps, i);
    }
}

/// Nothing is staged exactly when the index records the same paths with the same hashes
/// as HEAD's tree.
pub proof fn law_nothing_staged_iff_index_matches_head(head: StrMap<String>, index: StrMap<String>)
    requires
        keys_distinct(head.pairs()),
        keys_distinct(index.pairs()),
    ensures
        staged_changes(head.pairs(), index.pairs()).len() == 0 <==> hash_view(head.map()) == hash_view(
            index.map(),
        ),
{
    let hp = head.pairs();
    let ip = index.pairs();
    let hm = pairs_map(hp);
    let im = pairs_map(ip);
    lemma_select_empty(ip, new_in_index(hm));
    lemma_select_empty(ip, modified_in_index(hm));
    lemma_select_empty(hp, deleted_from_head(im));
    if staged_changes(hp, ip).len() == 0 {
        assert(select(ip, new_in_index(hm)).len() == 0);
        assert(select(ip, modified_in_index(hm)).len() == 0);
        assert(select(hp, deleted_from_head(im)).len() == 0);
        assert forall|k: Seq<char>| #[trigger] hm.contains_key(k) == im.contains_key(k) by {
            lemma_in_map(hp, k);
            lemma_in_map(ip, k);
            if im.contains_key(k) {
                let i = choose|i: int| 0 <= i < ip.len() && #[trigger] ip[i].0 == k;
                assert(new_in_index(hm)(ip[i]) is None);
            }
            if hm.contains_key(k) {
                let i = choose|i: int| 0 <= i < hp.len() && #[trigger] hp[i].0 == k;
                assert(deleted_from_head(im)(hp[i]) is None);
            }
        }
        assert forall|k: Seq<char>| im.contains_key(k) implies #[trigger] hm[k]@ == im[k]@ by {
            lemma_in_map(ip, k);
            let i = choose|i: int| 0 <= i < ip.len() && #[trigger] ip[i].0 == k;
            lemma_pairs_map_at(ip, i);
            assert(modified_in_index(hm)(ip[i]) is None);
        }
        assert(hash_view(hm) =~= hash_view(im));
    }
    if hash_view(hm) == hash_view(im) {
        assert forall|k: Seq<char>| #[trigger] hm.contains_key(k) == im.contains_key(k) by {
            assert(hash_view(hm).contains_key(k) == hm.contains_key(k));
            assert(hash_view(im).contains_key(k) == im.contains_key(k));
        }
        assert forall|i: int| 0 <= i < ip.len() implies (#[trigger] new_in_index(hm)(ip[i])) is None by {
            lemma_pairs_map_at(ip, i);
        }
        assert forall|i: int| 0 <= i < ip.len() implies (#[trigger] modified_in_index(hm)(ip[i])) is None by {
            lemma_pairs_map_at(ip, i);
            let k = ip[i].0;
            assert(hash_view(hm)[k] == hash_view(im)[k]);
        }
        assert forall|i: int| 0 <= i < hp.len() implies (#[trigger] deleted_from_head(im)(hp[i])) is None by {
            lemma_pairs_map_at(hp, i);
        }
    }
}

/// A path is staged as new exactly when the index has it and HEAD does not; as modified
/// exactly when both have it under different hashes; as deleted exactly when HEAD has it
/// and the index does not.
pub proof fn law_staged_kinds(head: StrMap<String>, index: StrMap<String>, p: Seq<char>)
    requires
        keys_distinct(head.pairs()),
        keys_distinct(index.pairs()),
    ensures
        staged_changes(head.pairs(), index.pairs()).contains((p, ChangeType::New)) <==> (
        index.map().contains_key(p) && !head.map().contains_key(p)),
        staged_changes(head.pairs(), index.pairs()).contains((p, ChangeType::Modified)) <==> (
        index.map().contains_key(p) && head.map().contains_key(p) && head.map()[p]@
            != index.map()[p]@),
        staged_changes(head.pairs(), index.pairs()).contains((p, ChangeType::Deleted)) <==> (
        head.map().contains_key(p) && !index.map().contains_key(p)),
{
    let hp = head.pairs();
    let ip = index.pairs();
    let hm = pairs_map(hp);
    let im = pairs_map(ip);
    let a = select(ip, new_in_index(hm));
    let b = select(ip, modified_in_index(hm));
    let c = select(hp, deleted_from_head(im));
    lemma_in_map(hp, p);
    lemma_in_map(ip, p);
    assert forall|x: ChangeView| #[trigger] (a + b + c).contains(x) <==> (a.contains(x) || b.contains(x)
        || c.contains(x)) by {
        if (a + b + c).contains(x) {
            let k = choose|k: int| 0 <= k < (a + b + c).len() && (a + b + c)[k] == x;
            if k < a.len() {
                assert(a[k] == x);
            } else if k < a.len() + b.len() {
                assert(b[k - a.len()] == x);
            } else {
                assert(c[k - a.len() - b.len()] == x);
            }
        }
        if a.contains(x) {
            let k = choose|k: int| 0 <= k < a.len() && a[k] == x;
            assert((a + b + c)[k] == x);
        }
        if b.contains(x) {
            let k = choose|k: int| 0 <= k < b.len() && b[k] == x;
            assert((a + b + c)[a.len() + k] == x);
        }
        if c.contains(x) {
            let k = choose|k: int| 0 <= k < c.len() && c[k] == x;
            assert((a + b + c)[a.len() + b.len() + k] == x);
        }
    }
    let kinds = seq![ChangeType::New, ChangeType::Modified, ChangeType::Deleted];
    assert forall|t: ChangeType| #[trigger] kinds.contains(t) implies {
        &&& a.contains((p, t)) <==> (t == ChangeType::New && im.contains_key(p) && !hm.contains_key(p))
        &&& b.contains((p, t)) <==> (t == ChangeType::Modified && im.contains_key(p) && hm.contains_key(p)
            && hm[p]@ != im[p]@)
        &&& c.contains((p, t)) <==> (t == ChangeType::Deleted && hm.contains_key(p) && !im.contains_key(p))
    } by {
        lemma_select_contains(ip, new_in_index(hm), (p, t));
        lemma_select_contains(ip, modified_in_index(hm), (p, t));
        lemma_select_contains(hp, deleted_from_head(im), (p, t));
        if im.contains_key(p) {
            let i = choose|i: int| 0 <= i < ip.len() && #[trigger] ip[i].0 == p;
            lemma_pairs_map_at(ip, i);
            assert(new_in_index(hm)(ip[i]) == new_in_index(hm)(ip[i]));
            assert(modified_in_index(hm)(ip[i]) == modified_in_index(hm)(ip[i]));
        }
        if hm.contains_key(p) {
            let i = choose|i: int| 0 <= i < hp.len() && #[trigger] hp[i].0 == p;
            lemma_pairs_map_at(hp, i);
            assert(deleted_from_head(im)(hp[i]) == deleted_from_head(im)(hp[i]));
        }
    }
    assert(kinds.contains(ChangeType::New)) by { assert(kinds[0] == ChangeType::New); }
    assert(kinds.contains(ChangeType::Modified)) by { assert(kinds[1] == ChangeType::Modified); }
    assert(kinds.contains(ChangeType::Deleted)) by { assert(kinds[2] == ChangeType::Deleted); }
}

/// A path is untracked exactly when the working tree has it and neither the index nor
/// HEAD does.
pub proof fn law_untracked_exactly(
    working: StrMap<String>,
    index: StrMap<String>,
    head: StrMap<String>,
    p: Seq<char>,
)
    requires
        keys_distinct(working.pairs()),
        keys_distinct(index.pairs()),
        keys_distinct(head.pairs()),
    ensures
        untracked_paths(working.pairs(), index.pairs(), head.pairs()).contains(p) <==> (
        working.map().contains_key(p) && !index.map().contains_key(p) && !head.map().contains_key(p)),
{
    let wp = working.pairs();
    let f = untracked_path(index.map(), head.map());
    lemma_select_contains(wp, f, p);
    lemma_in_map(wp, p);
    if working.map().contains_key(p) {
        let i = choose|i: int| 0 <= i < wp.len() && #[trigger] wp[i].0 == p;
        assert(f(wp[i]) == f(wp[i]));
    }
}

/// Nothing is unstaged exactly when every index path is in the working tree with the
/// same hash.
pub proof fn law_nothing_unstaged_iff_working_matches_index(
    working: StrMap<String>,
    index: StrMap<String>,
)
    requires
        keys_distinct(working.pairs()),
        keys_distinct(index.pairs()),
    ensures
        unstaged_changes(working.pairs(), index.pairs()).len() == 0 <==> (forall|k: Seq<char>|
            #[trigger] index.map().contains_key(k) ==> working.map().contains_key(k)
                && working.map()[k]@ == index.map()[k]@),
{
    let wp = working.pairs();
    let ip = index.pairs();
    let f = unstaged_change(pairs_map(wp));
    lemma_select_empty(ip, f);
    if unstaged_changes(wp, ip).len() == 0 {
        assert forall|k: Seq<char>| #[trigger] index.map().contains_key(k) implies working.map().contains_key(k)
            && working.map()[k]@ == index.map()[k]@ by {
            lemma_in_map(ip, k);
            let i = choose|i: int| 0 <= i < ip.len() && #[trigger] ip[i].0 == k;
            lemma_pairs_map_at(ip, i);
            assert(f(ip[i]) is None);
        }
    }
    if forall|k: Seq<char>| #[trigger] index.map().contains_key(k) ==> working.map().contains_key(k)
        && working.map()[k]@ == index.map()[k]@ {
        assert forall|i: int| 0 <= i < ip.len() implies (#[trigger] f(ip[i])) is None by {
            lemma_pairs_map_at(ip, i);
            assert(index.map().contains_key(ip[i].0));
        }
    }
}

/// When HEAD, the index and the working tree record the same paths with the same hashes,
/// the status is clean: nothing staged, nothing unstaged, nothing untracked.
pub proof fn law_clean_tree(head: StrMap<String>, index: StrMap<String>, working: StrMap<String>)
    requires
        keys_distinct(head.pairs()),
        keys_distinct(index.pairs()),
        keys_distinct(working.pairs()),
        hash_view(head.map()) == hash_view(index.map()),
        hash_view(working.map()) == hash_view(index.map()),
    ensures
        staged_changes(head.pairs(), index.pairs()).len() == 0,
        unstaged_changes(working.pairs(), index.pairs()).len() == 0,
        untracked_paths(working.pairs(), index.pairs(), head.pairs()).len() == 0,
{
    law_nothing_staged_iff_index_matches_head(head, index);
    assert forall|k: Seq<char>| #[trigger] index.map().contains_key(k) implies working.map().contains_key(k)
        && working.map()[k]@ == index.map()[k]@ by {
        assert(hash_view(index.map()).contains_key(k));
        assert(hash_view(working.map())[k] == hash_view(index.map())[k]);
    }
    law_nothing_unstaged_iff_working_matches_index(working, index);
    let wp = working.pairs();
    let f = untracked_path(index.map(), head.map());
    lemma_select_empty(wp, f);
    assert forall|i: int| 0 <= i < wp.len() implies (#[trigger] f(wp[i])) is None by {
        lemma_pairs_map_at(wp, i);
        assert(hash_view(working.map()).contains_key(wp[i].0));
    }
}

proof fn lemma_select_len_same<A, B, C>(xs: Seq<A>, f: spec_fn(A) -> Option<B>, g: spec_fn(A) -> Option<C>)
    requires
        forall|i: int| 0 <= i < xs.len() ==> ((#[trigger] f(xs[i])) is Some <==> g(xs[i]) is Some),
    ensures
        select(xs, f).len() == select(xs, g).len(),
    decreases xs.len(),
{
    if xs.len() > 0 {
        let ys = xs.drop_last();
        assert forall|i: int| 0 <= i < ys.len() implies ((#[trigger] f(ys[i])) is Some <==> g(ys[i]) is Some) by {
            assert(ys[i] == xs[i]);
        }
        lemma_select_len_same(ys, f, g);
        assert(f(xs[xs.len() - 1]) is Some <==> g(xs[xs.len() - 1]) is Some);
    }
}

proof fn lemma_select_keys_unique(ps: Seq<Entry>, f: spec_fn(Entry) -> Option<ChangeView>)
    requires
        keys_distinct(ps),
        forall|e: Entry| #[trigger] f(e) matches Some(c) ==> c.0 == e.0,
    ensures
        select(ps, f).no_duplicates(),
    decreases ps.len(),
{
    if ps.len() > 0 {
        let qs = ps.drop_last();
        assert forall|i: int, j: int|
            0 <= i < qs.len() && 0 <= j < qs.len() && i != j implies #[trigger] qs[i].0 != #[trigger] qs[j].0 by {
            assert(qs[i] == ps[i] && qs[j] == ps[j]);
        }
        lemma_select_keys_unique(qs, f);
        let rest = select(qs, f);
        match f(ps.last()) {
            Some(b) => {
                lemma_select_contains(qs, f, b);
                if rest.contains(b) {
                    let i = choose|i: int| 0 <= i < qs.len() && #[trigger] f(qs[i]) == Some(b);
                    assert(qs[i] == ps[i]);
                    assert(ps[i].0 == ps[ps.len() - 1].0);
                }
                let r = select(ps, f);
                assert(r == rest.push(b));
                assert forall|i: int, j: int| 0 <= i < r.len() && 0 <= j < r.len() && i != j implies r[i] != r[j] by {
                    if i < rest.len() && j < rest.len() {
                        assert(r[i] == rest[i] && r[j] == rest[j]);
                    } else if i < rest.len() {
                        assert(r[i] == rest[i]);
                        assert(rest.contains(r[i]));
                    } else if j < rest.len() {
                        assert(r[j] == rest[j]);
                        assert(rest.contains(r[j]));
                    }
                }
            },
            None => {},
        }
    }
}

proof fn lemma_modified_members(ps: Seq<Entry>, m: Map<Seq<char>, String>, x: ChangeView)
    requires
        keys_distinct(ps),
    ensures
        select(ps, modified_in_index(m)).contains(x) <==> (x.1 == ChangeType::Modified && pairs_map(
            ps,
        ).contains_key(x.0) && m.contains_key(x.0) && m[x.0]@ != pairs_map(ps)[x.0]@),
{
    let f = modified_in_index(m);
    lemma_select_contains(ps, f, x);
    lemma_in_map(ps, x.0);
    if pairs_map(ps).contains_key(x.0) {
        let i = choose|i: int| 0 <= i < ps.len() && #[trigger] ps[i].0 == x.0;
        lemma_pairs_map_at(ps, i);
        assert(f(ps[i]) == f(ps[i]));
    }
    if select(ps, f).contains(x) {
        let i = choose|i: int| 0 <= i < ps.len() && #[trigger] f(ps[i]) == Some(x);
        lemma_pairs_map_at(ps, i);
    }
}

/// Swapping HEAD and the index turns new files into deleted ones and back, keeps the
/// modified files, and stages as many changes.
pub proof fn law_staged_swap(head: StrMap<String>, index: StrMap<String>)
    requires
        keys_distinct(head.pairs()),
        keys_distinct(index.pairs()),
    ensures
        forall|p: Seq<char>| #[trigger] staged_changes(head.pairs(), index.pairs()).contains((p, ChangeType::New))
            <==> staged_changes(index.pairs(), head.pairs()).contains((p, ChangeType::Deleted)),
        forall|p: Seq<char>| #[trigger] staged_changes(head.pairs(), index.pairs()).contains((p, ChangeType::Deleted))
            <==> staged_changes(index.pairs(), head.pairs()).contains((p, ChangeType::New)),
        forall|p: Seq<char>| #[trigger] staged_changes(head.pairs(), index.pairs()).contains((p, ChangeType::Modified))
            <==> staged_changes(index.pairs(), head.pairs()).contains((p, ChangeType::Modified)),
        staged_changes(head.pairs(), index.pairs()).len() == staged_changes(index.pairs(), head.pairs()).len(),
{
    let hp = head.pairs();
    let ip = index.pairs();
    let hm = pairs_map(hp);
    let im = pairs_map(ip);
    assert forall|p: Seq<char>| {
        &&& staged_changes(hp, ip).contains((p, ChangeType::New)) <==> staged_changes(ip, hp).contains((p, ChangeType::Deleted))
        &&& staged_changes(hp, ip).contains((p, ChangeType::Deleted)) <==> staged_changes(ip, hp).contains((p, ChangeType::New))
        &&& staged_changes(hp, ip).contains((p, ChangeType::Modified)) <==> staged_changes(ip, hp).contains((p, ChangeType::Modified))
    } by {
        law_staged_kinds(head, index, p);
        law_staged_kinds(index, head, p);
    }
    // New files one way are deleted files the other way, counted over the same list.
    assert forall|i: int| 0 <= i < ip.len() implies ((#[trigger] new_in_index(hm)(ip[i])) is Some
        <==> deleted_from_head(hm)(ip[i]) is Some) by {}
    lemma_select_len_same(ip, new_in_index(hm), deleted_from_head(hm));
    assert forall|i: int| 0 <= i < hp.len() implies ((#[trigger] deleted_from_head(im)(hp[i])) is Some
        <==> new_in_index(im)(hp[i]) is Some) by {}
    lemma_select_len_same(hp, deleted_from_head(im), new_in_index(im));
    // Modified files are the same set either way, each listed once.
    let b1 = select(ip, modified_in_index(hm));
    let b2 = select(hp, modified_in_index(im));
    lemma_select_keys_unique(ip, modified_in_index(hm));
    lemma_select_keys_unique(hp, modified_in_index(im));
    assert forall|x: ChangeView| b1.to_set().contains(x) <==> #[trigger] b2.to_set().contains(x) by {
        lemma_modified_members(ip, hm, x);
        lemma_modified_members(hp, im, x);
    }
    assert(b1.to_set() =~= b2.to_set());
    b1.unique_seq_to_set();
    b2.unique_seq_to_set();
}

/// The line that closes a report with no changes at all.
pub open spec fn clean_line() -> Seq<char> {
    "\nnothing to commit, working tree clean"@
}

/// The report says the tree is clean exactly when there is nothing staged, nothing
/// unstaged and nothing untracked; it lists every untracked path and every change.
pub proof fn law_report_clean_iff_no_changes(
    staged: Seq<ChangeView>,
    unstaged: Seq<ChangeView>,
    untracked: Seq<Seq<char>>,
)
    ensures
        status_report_lines(staged, unstaged, untracked).contains(clean_line()) <==> (staged.len() == 0
            && unstaged.len() == 0 && untracked.len() == 0),
        forall|i: int| 0 <= i < untracked.len() ==> status_report_lines(staged, unstaged, untracked).contains(
            "        "@ + #[trigger] untracked[i],
        ),
        forall|i: int| 0 <= i < staged.len() ==> status_report_lines(staged, unstaged, untracked).contains(
            "        "@ + change_label((#[trigger] staged[i]).1) + staged[i].0,
        ),
        forall|i: int| 0 <= i < unstaged.len() ==> status_report_lines(staged, unstaged, untracked).contains(
            "        "@ + change_label((#[trigger] unstaged[i]).1) + unstaged[i].0,
        ),
{
    reveal_strlit("On branch main");
    reveal_strlit("\nChanges to be committed:");
    reveal_strlit("  (use \"proto reset <file>...\" to unstage)");
    reveal_strlit("\nChanges not staged for commit:");
    reveal_strlit("  (use \"proto add <file>...\" to update what will be committed)");
    reveal_strlit("  (use \"proto restore <file>...\" to discard changes)");
    reveal_strlit("\nUntracked files:");
    reveal_strlit("  (use \"proto add <file>...\" to include in what will be committed)");
    reveal_strlit("\nnothing to commit, working tree clean");
    reveal_strlit("        ");
    let r = status_report_lines(staged, unstaged, untracked);
    let c = clean_line();
    let sa = if staged.len() > 0 {
        seq!["\nChanges to be committed:"@, "  (use \"proto reset <file>...\" to unstage)"@]
            + staged.map_values(|x: ChangeView| change_line(x))
    } else {
        seq![]
    };
    let ua = if unstaged.len() > 0 {
        seq![
            "\nChanges not staged for commit:"@,
            "  (use \"proto add <file>...\" to update what will be committed)"@,
            "  (use \"proto restore <file>...\" to discard changes)"@,
        ] + unstaged.map_values(|x: ChangeView| change_line(x))
    } else {
        seq![]
    };
    let ta = if untracked.len() > 0 {
        seq!["\nUntracked files:"@, "  (use \"proto add <file>...\" to include in what will be committed)"@]
            + untracked.map_values(|p: Seq<char>| path_line(p))
    } else {
        seq![]
    };
    let empty = staged.len() == 0 && unstaged.len() == 0 && untracked.len() == 0;
    let ca = if empty { seq![c] } else { Seq::<Seq<char>>::empty() };
    let head = seq!["On branch main"@] + sa + ua + ta;
    assert(r =~= head + ca);
    // No line before the last can be the clean line: each is shorter, or starts with a space.
    assert forall|i: int| 0 <= i < head.len() implies head[i] != c by {
        assert(c.len() == 38);
        assert(c[0] == '\n');
        let l = head[i];
        if i == 0 {
            assert(l.len() == 14);
        } else if i < 1 + sa.len() {
            let j = i - 1;
            assert(l == sa[j]);
            if j >= 2 {
                assert(l == change_line(staged[j - 2]));
                assert(l[0] == ' ');
            }
        } else if i < 1 + sa.len() + ua.len() {
            let j = i - 1 - sa.len();
            assert(l == ua[j]);
            if j >= 3 {
                assert(l == change_line(unstaged[j - 3]));
                assert(l[0] == ' ');
            }
        } else {
            let j = i - 1 - sa.len() - ua.len();
            assert(l == ta[j]);
            if j >= 2 {
                assert(l == path_line(untracked[j - 2]));
                assert(l[0] == ' ');
            }
        }
    }
    if r.contains(c) {
        let k = choose|k: int| 0 <= k < r.len() && r[k] == c;
        if !empty {
            assert(r =~= head);
            assert(head[k] == c);
        }
    }
    if empty {
        assert(r[r.len() - 1] == c);
    }
    assert forall|i: int| 0 <= i < untracked.len() implies r.contains("        "@ + #[trigger] untracked[i]) by {
        let k = 1 + sa.len() + ua.len() + 2 + i;
        assert(ta[2 + i] == path_line(untracked[i]));
        assert(head[k] == ta[2 + i]);
        assert(r[k] == head[k]);
    }
    assert forall|i: int| 0 <= i < staged.len() implies r.contains(
        "        "@ + change_label((#[trigger] staged[i]).1) + staged[i].0,
    ) by {
        let k = 1 + 2 + i;
        assert(sa[2 + i] == change_line(staged[i]));
        assert(head[k] == sa[2 + i]);
        assert(r[k] == head[k]);
    }
    assert forall|i: int| 0 <= i < unstaged.len() implies r.contains(
        "        "@ + change_label((#[trigger] unstaged[i]).1) + unstaged[i].0,
    ) by {
        let k = 1 + sa.len() + 3 + i;
        assert(ua[3 + i] == change_line(unstaged[i]));
        assert(head[k] == ua[3 + i]);
        assert(r[k] == head[k]);
    }
}

} // verus!
