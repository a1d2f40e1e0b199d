use protovcs::codec::{content_hash, hex_decode, hex_encode, hex_error_message, HexError};
use protovcs::objects::{commit_of, commit_tree, object_location, Commit, Index, Tree};
use sha2::{Digest, Sha256};

fn sha_hex(text: &str) -> String {
    hex::encode(Sha256::digest(text.as_bytes()))
}

#[test]
fn content_hash_of_hello() {
    assert_eq!(
        content_hash(b"hello"),
        "2cf24dba5fb0a30e26e83b2ac5b9e29e1b161e5c1fa7425e73043362938b9824"
    );
    assert_eq!(content_hash(b"").len(), 64);
}

#[test]
fn tree_hash_is_over_sorted_entries() {
    let mut index = Index::new();
    index.entries.insert("b.txt".to_string(), "h2".to_string());
    index.entries.insert("a.txt".to_string(), "h1".to_string());
    index.entries.insert("dir/c".to_string(), "h3".to_string());
    let tree = Tree::from_index(index);
    assert!(!tree.is_empty());
    assert_eq!(
        tree.hash(),
        sha_hex(r#"[["a.txt","h1"],["b.txt","h2"],["dir/c","h3"]]"#)
    );
}

#[test]
fn tree_hash_ignores_insertion_order() {
    let mut i1 = Index::new();
    let mut i2 = Index::new();
    for (k, v) in [("z", "1"), ("a", "2"), ("m", "3"), ("B", "4")] {
        i1.entries.insert(k.to_string(), v.to_string());
    }
    for (k, v) in [("B", "4"), ("m", "3"), ("a", "2"), ("z", "1")] {
        i2.entries.insert(k.to_string(), v.to_string());
    }
    let h1 = Tree::from_index(i1).hash();
    let h2 = Tree::from_index(i2).hash();
    assert_eq!(h1, h2);
    assert_eq!(h1, sha_hex(r#"[["B","4"],["a","2"],["m","3"],["z","1"]]"#));
}

#[test]
fn tree_hash_sorts_by_utf8_bytes() {
    let mut index = Index::new();
    index.entries.insert("é".to_string(), "1".to_string());
    index.entries.insert("z".to_string(), "2".to_string());
    index.entries.insert("ab".to_string(), "3".to_string());
    index.entries.insert("a".to_string(), "4".to_string());
    let tree = Tree::from_index(index);
    assert_eq!(tree.hash(), sha_hex(r#"[["a","4"],["ab","3"],["z","2"],["é","1"]]"#));
}

#[test]
fn empty_tree() {
    let tree = Tree::from_index(Index::new());
    assert!(tree.is_empty());
    assert_eq!(tree.hash(), sha_hex("[]"));
}

fn sample_commit() -> Commit {
    Commit {
        tree: "abc".to_string(),
        parents: vec!["p1".to_string(), "p2".to_string()],
        author: "key".to_string(),
        timestamp: 1700000000,
        message: "fix \"quotes\"\nand\ttabs \u{1} \\".to_string(),
    }
}

#[test]
fn commit_canonical_json() {
    let c = sample_commit();
    let expected = r#"{"tree":"abc","parents":["p1","p2"],"author":"key","timestamp":1700000000,"message":"fix \"quotes\"\nand\ttabs \u0001 \\"}"#;
    assert_eq!(c.canonical_json(), expected);
    assert_eq!(c.hash(), sha_hex(expected));
}

#[test]
fn commit_without_parents_json() {
    let c = Commit {
        tree: "t".to_string(),
        parents: vec![],
        author: "a".to_string(),
        timestamp: 0,
        message: "m".to_string(),
    };
    assert_eq!(
        c.canonical_json(),
        r#"{"tree":"t","parents":[],"author":"a","timestamp":0,"message":"m"}"#
    );
}

#[test]
fn object_location_splits_after_two_bytes() {
    assert_eq!(
        object_location("abcdef"),
        Some(("ab".to_string(), "cdef".to_string()))
    );
    assert_eq!(object_location("ab"), Some(("ab".to_string(), String::new())));
    assert_eq!(object_location("a"), None);
    assert_eq!(object_location("aé"), None);
    assert_eq!(object_location("éx"), Some(("é".to_string(), "x".to_string())));
}

#[test]
fn hex_roundtrip_and_errors() {
    assert_eq!(hex_encode(&[0x00, 0xab, 0xff]), "00abff");
    assert_eq!(hex_decode("00ABff"), Ok(vec![0x00, 0xab, 0xff]));
    assert_eq!(hex_decode("abc"), Err(HexError::OddLength));
    assert_eq!(
        hex_decode("0z"),
        Err(HexError::InvalidHexCharacter { c: 'z', index: 1 })
    );
    assert_eq!(
        hex_error_message(&HexError::InvalidHexCharacter { c: 'z', index: 1 }),
        "Invalid character 'z' at position 1"
    );
    assert_eq!(hex_error_message(&HexError::OddLength), "Odd number of digits");
    assert_eq!(hex_error_message(&HexError::InvalidStringLength), "Invalid string length");
}

#[test]
fn prepare_commit_refuses_empty_index() {
    let r = protovcs::objects::prepare_commit(Index::new(), None, "a".into(), 1, "m".into());
    assert_eq!(r.err(), Some("No changes to commit".to_string()));
}

#[test]
fn prepare_commit_links_tree_and_parent() {
    let mut index = Index::new();
    let h = index.stage("f.txt".to_string(), b"hello");
    assert_eq!(h, content_hash(b"hello"));
    let (tree, commit) = protovcs::objects::prepare_commit(
        index,
        Some("parent0".to_string()),
        "me".to_string(),
        42,
        "msg".to_string(),
    )
    .ok()
    .unwrap();
    assert_eq!(commit.tree, tree.hash());
    assert_eq!(commit.tree, sha_hex(&format!(r#"[["f.txt","{}"]]"#, h)));
    assert_eq!(commit.parents, vec!["parent0".to_string()]);
    assert_eq!((commit.author.as_str(), commit.timestamp, commit.message.as_str()), ("me", 42, "msg"));
    let (_, root) = protovcs::objects::prepare_commit(
        {
            let mut i = Index::new();
            i.stage("x".to_string(), b"");
            i
        },
        None,
        "me".to_string(),
        0,
        "first".to_string(),
    )
    .ok()
    .unwrap();
    assert!(root.parents.is_empty());
}

#[test]
fn empty_tree_hash_is_hash_of_empty_list() {
    let t = Tree::from_index(Index::new());
    assert_eq!(t.hash(), sha_hex("[]"));
    assert_eq!(t.hash().len(), 64);
}

#[test]
fn commit_tree_refuses_empty_index_and_commit_of_names_the_tree() {
    match commit_tree(Index::new()) {
        Err(m) => assert_eq!(m, "No changes to commit"),
        Ok(_) => panic!("empty index committed"),
    }
    let mut index = Index::new();
    index.stage("a.txt".to_string(), b"A");
    let tree = commit_tree(index).ok().unwrap();
    let c = commit_of(&tree, Some("p1".to_string()), "me".to_string(), 5, "msg".to_string());
    assert_eq!(c.tree, tree.hash());
    assert_eq!(c.parents, vec!["p1".to_string()]);
    assert_eq!((c.author.as_str(), c.timestamp, c.message.as_str()), ("me", 5, "msg"));
    let root = commit_of(&tree, None, "me".to_string(), 5, "msg".to_string());
    assert!(root.parents.is_empty());
}
