use protovcs::status::{get_status, status_report, ChangeType, change_prefix};
use protovcs::strmap::StrMap;

fn map(entries: &[(&str, &str)]) -> StrMap<String> {
    let mut m = StrMap::new();
    for (k, v) in entries {
        m.insert(k.to_string(), v.to_string());
    }
    m
}

fn changes(v: &[protovcs::status::Change]) -> Vec<(String, ChangeType)> {
    v.iter().map(|c| (c.path.clone(), c.change_type)).collect()
}

#[test]
fn status_reports_each_kind_of_change() {
    let head = map(&[("a.txt", "h1"), ("b.txt", "h2"), ("gone.txt", "h3")]);
    let index = map(&[("a.txt", "h1"), ("b.txt", "h2x"), ("new.txt", "h4")]);
    let working = map(&[("a.txt", "h1"), ("b.txt", "h2y"), ("junk.txt", "h5")]);
    let s = get_status(&head, &index, &working);
    assert_eq!(
        changes(&s.staged),
        vec![
            ("new.txt".to_string(), ChangeType::New),
            ("b.txt".to_string(), ChangeType::Modified),
            ("gone.txt".to_string(), ChangeType::Deleted),
        ]
    );
    assert_eq!(
        changes(&s.unstaged),
        vec![
            ("b.txt".to_string(), ChangeType::Modified),
            ("new.txt".to_string(), ChangeType::Deleted),
        ]
    );
    assert_eq!(s.untracked, vec!["junk.txt".to_string()]);
}

#[test]
fn status_of_clean_tree_is_empty() {
    let head = map(&[("a.txt", "h1"), ("dir/b.txt", "h2")]);
    let index = map(&[("dir/b.txt", "h2"), ("a.txt", "h1")]);
    let working = map(&[("a.txt", "h1"), ("dir/b.txt", "h2")]);
    let s = get_status(&head, &index, &working);
    assert!(s.staged.is_empty());
    assert!(s.unstaged.is_empty());
    assert!(s.untracked.is_empty());
}

#[test]
fn status_without_commits_stages_everything_as_new() {
    let head = map(&[]);
    let index = map(&[("x", "1"), ("y", "2")]);
    let working = map(&[("x", "1"), ("y", "2"), ("z", "3")]);
    let s = get_status(&head, &index, &working);
    assert_eq!(
        changes(&s.staged),
        vec![("x".to_string(), ChangeType::New), ("y".to_string(), ChangeType::New)]
    );
    assert!(s.unstaged.is_empty());
    assert_eq!(s.untracked, vec!["z".to_string()]);
}

#[test]
fn status_file_in_head_only_is_not_untracked() {
    let head = map(&[("old", "1")]);
    let index = map(&[]);
    let working = map(&[("old", "1")]);
    let s = get_status(&head, &index, &working);
    assert_eq!(changes(&s.staged), vec![("old".to_string(), ChangeType::Deleted)]);
    assert!(s.untracked.is_empty());
}

#[test]
fn status_labels() {
    assert_eq!(change_prefix(ChangeType::New), "new file:  ");
    assert_eq!(change_prefix(ChangeType::Modified), "modified: ");
    assert_eq!(change_prefix(ChangeType::Deleted), "deleted:  ");
}

#[test]
fn path_map_insert_replaces_in_place() {
    let mut m = map(&[("a", "1"), ("b", "2")]);
    m.insert("a".to_string(), "3".to_string());
    assert_eq!(m.len(), 2);
    assert_eq!(m.key_at(0), "a");
    assert_eq!(m.value_at(0), "3");
    assert_eq!(m.get(&"b".to_string()), Some(&"2".to_string()));
    assert_eq!(m.remove(&"a".to_string()), Some("3".to_string()));
    assert_eq!(m.len(), 1);
    assert!(!m.contains_key(&"a".to_string()));
    assert_eq!(m.remove(&"zz".to_string()), None);
}

#[test]
fn clean_status_report() {
    let m = map(&[("a.txt", "h1")]);
    let s = get_status(&m, &m, &m);
    assert_eq!(status_report(&s), vec!["On branch main", "\nnothing to commit, working tree clean"]);
}

#[test]
fn full_status_report() {
    let head = map(&[("a.txt", "h1"), ("gone.txt", "h3")]);
    let index = map(&[("a.txt", "h1"), ("new.txt", "h4")]);
    let working = map(&[("a.txt", "h9"), ("new.txt", "h4"), ("junk.txt", "h5")]);
    let s = get_status(&head, &index, &working);
    assert_eq!(
        status_report(&s),
        vec![
            "On branch main",
            "\nChanges to be committed:",
            "  (use \"proto reset <file>...\" to unstage)",
            "        new file:  new.txt",
            "        deleted:  gone.txt",
            "\nChanges not staged for commit:",
            "  (use \"proto add <file>...\" to update what will be committed)",
            "  (use \"proto restore <file>...\" to discard changes)",
            "        modified: a.txt",
            "\nUntracked files:",
            "  (use \"proto add <file>...\" to include in what will be committed)",
            "        junk.txt",
        ]
    );
}

#[test]
fn swapping_head_and_index_swaps_new_and_deleted() {
    let x = map(&[("a", "1"), ("b", "2"), ("c", "3")]);
    let y = map(&[("b", "2x"), ("c", "3"), ("d", "4"), ("e", "5")]);
    let s1 = changes(&get_status(&x, &y, &y).staged);
    let s2 = changes(&get_status(&y, &x, &x).staged);
    assert_eq!(s1.len(), s2.len());
    let kind = |v: &Vec<(String, ChangeType)>, t: ChangeType| {
        let mut p: Vec<String> = v.iter().filter(|c| c.1 == t).map(|c| c.0.clone()).collect();
        p.sort();
        p
    };
    assert_eq!(kind(&s1, ChangeType::New), kind(&s2, ChangeType::Deleted));
    assert_eq!(kind(&s1, ChangeType::Deleted), kind(&s2, ChangeType::New));
    assert_eq!(kind(&s1, ChangeType::Modified), kind(&s2, ChangeType::Modified));
    assert_eq!(kind(&s1, ChangeType::New), vec!["d", "e"]);
}
