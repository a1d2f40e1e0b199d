use protovcs::log::{
    check_commit_hash, decoration, message_lines, oneline, parse_head, resolve_head, HeadTarget,
    LogEntry, LogWalk,
};
use protovcs::objects::{prepare_commit, Commit, Index};

fn commit(parents: &[&str], message: &str) -> Commit {
    Commit {
        tree: "t".to_string(),
        parents: parents.iter().map(|p| p.to_string()).collect(),
        author: "a".to_string(),
        timestamp: 1,
        message: message.to_string(),
    }
}

#[test]
fn head_forms() {
    match parse_head("ref: refs/heads/main\n") {
        HeadTarget::Branch { ref_name, branch } => {
            assert_eq!(ref_name, "refs/heads/main");
            assert_eq!(branch, "main");
        }
        other => panic!("unexpected {:?}", other),
    }
    match parse_head("ref: refs/tags/v1") {
        HeadTarget::Branch { branch, .. } => assert_eq!(branch, "refs/tags/v1"),
        other => panic!("unexpected {:?}", other),
    }
    match parse_head("  abc123 \n") {
        HeadTarget::Detached { hash } => assert_eq!(hash, "abc123"),
        other => panic!("unexpected {:?}", other),
    }
    assert!(matches!(parse_head(" \n"), HeadTarget::Empty));
}

#[test]
fn head_resolution() {
    assert_eq!(
        resolve_head(parse_head("ref: refs/heads/main\n"), None),
        (None, Some("main".to_string()))
    );
    assert_eq!(
        resolve_head(parse_head("ref: refs/heads/main\n"), Some("  \n".to_string())),
        (None, Some("main".to_string()))
    );
    assert_eq!(
        resolve_head(parse_head("ref: refs/heads/main\n"), Some("c0ffee\n".to_string())),
        (Some("c0ffee".to_string()), Some("main".to_string()))
    );
    assert_eq!(
        resolve_head(parse_head("deadbeef"), None),
        (Some("deadbeef".to_string()), None)
    );
    assert_eq!(resolve_head(parse_head(""), None), (None, None));
}

#[test]
fn log_walk_follows_first_parents() {
    let mut walk = LogWalk::start(Some("c3".to_string()), Some("main".to_string()));
    assert_eq!(walk.pending.as_deref(), Some("c3"));
    walk.record(commit(&["c2", "x"], "third"));
    assert_eq!(walk.pending.as_deref(), Some("c2"));
    walk.record(commit(&["c1"], "second"));
    walk.record(commit(&[], "first"));
    assert_eq!(walk.pending, None);
    let entries = walk.into_entries();
    let hashes: Vec<&str> = entries.iter().map(|e| e.hash.as_str()).collect();
    assert_eq!(hashes, vec!["c3", "c2", "c1"]);
    assert!(entries[0].is_head && !entries[1].is_head && !entries[2].is_head);
    assert_eq!(entries[0].branch.as_deref(), Some("main"));
    assert_eq!(entries[1].branch, None);
    assert_eq!(entries[2].commit.message, "first");
}

#[test]
fn log_walk_without_commits() {
    let walk = LogWalk::start(None, Some("main".to_string()));
    assert_eq!(walk.pending, None);
    assert!(walk.into_entries().is_empty());
}

#[test]
fn short_commit_hash_is_corrupt() {
    assert_eq!(
        check_commit_hash("ab"),
        Err("Corrupt commit hash (too short): ab".to_string())
    );
    assert_eq!(check_commit_hash("abc"), Ok(()));
}

fn entry(hash: &str, is_head: bool, branch: Option<&str>, message: &str) -> LogEntry {
    LogEntry {
        hash: hash.to_string(),
        commit: commit(&[], message),
        is_head,
        branch: branch.map(|b| b.to_string()),
    }
}

#[test]
fn oneline_summaries() {
    let e = entry("0123456789abcdef", true, Some("main"), "  Subject line \r\nbody\n");
    assert_eq!(decoration(&e), " [HEAD -> main]");
    assert_eq!(oneline(&e), Some("01234567 [HEAD -> main] Subject line".to_string()));
    let e = entry("fedcba9876543210", false, None, "");
    assert_eq!(decoration(&e), "");
    assert_eq!(oneline(&e), Some("fedcba98 ".to_string()));
    let e = entry("short", false, None, "m");
    assert_eq!(oneline(&e), None);
}

#[test]
fn message_lines_split_like_str_lines() {
    assert_eq!(message_lines("a\nb\r\n\nc"), vec!["a", "b", "", "c"]);
    assert_eq!(message_lines("one\n"), vec!["one"]);
    assert!(message_lines("").is_empty());
    assert_eq!(message_lines("x\r"), vec!["x\r"]);
    for m in ["a\nb\r\n\nc", "one\n", "", "x\r", "\r\n", "a\n\n"] {
        let expected: Vec<String> = m.lines().map(|l| l.to_string()).collect();
        assert_eq!(message_lines(m), expected);
    }
}

#[test]
fn commit_then_log_adds_one_entry_on_top() {
    // old history: c1 <- c2 (head)
    let mut old = LogWalk::start(Some("h2".to_string()), Some("main".to_string()));
    old.record(commit(&["h1"], "second"));
    old.record(commit(&[], "first"));
    let old = old.into_entries();
    let mut index = Index::new();
    index.stage("f.txt".to_string(), b"F");
    let (_, c3) = prepare_commit(index, Some("h2".to_string()), "me".to_string(), 9, "third".to_string())
        .ok()
        .unwrap();
    let h3 = c3.hash();
    let mut walk = LogWalk::start(Some(h3.clone()), Some("main".to_string()));
    walk.record(c3);
    assert_eq!(walk.pending, Some("h2".to_string()));
    walk.record(commit(&["h1"], "second"));
    walk.record(commit(&[], "first"));
    assert_eq!(walk.pending, None);
    let new = walk.into_entries();
    assert_eq!(new.len(), old.len() + 1);
    assert_eq!(new[0].hash, h3);
    assert_eq!(new[0].commit.message, "third");
    assert!(new[0].is_head && new[0].branch.as_deref() == Some("main"));
    for i in 0..old.len() {
        assert_eq!(new[i + 1].hash, old[i].hash);
        assert!(!new[i + 1].is_head && new[i + 1].branch.is_none());
    }
}
