use vstd::prelude::*;

use crate::strmap::{StrMap, keys_distinct, has_key, key_index, pairs_map, lemma_pairs_map_at, lemma_pairs_map_push, lemma_pairs_map_remove};
use crate::order::{key_lt, key_less, lemma_key_lt_irreflexive, lemma_key_lt_transitive, lemma_key_lt_asymmetric, lemma_key_lt_total};
use crate::codec::{json_str, push_json_str, content_hash, content_hash_of};
use crate::text::{owned, decimal, decimal_string};
use crate::log::{first_parent, opt_text};
use vstd::utf8::is_char_boundary;
use vstd::utf8::encode_utf8;

verus! {

/// The hashes a path map records, each taken by its characters.
pub open spec fn hash_view(m: Map<Seq<char>, String>) -> Map<Seq<char>, Seq<char>> {
    Map::new(|k: Seq<char>| m.contains_key(k), |k: Seq<char>| m[k]@)
}


/// A listing of (path, hash) entries, each taken by its characters.
pub type Listing = Seq<(Seq<char>, Seq<char>)>;

/// The listing of a path map's entries, in its order.
pub open spec fn listing_of(ps: Seq<(Seq<char>, String)>) -> Listing {
    ps.map_values(|p: (Seq<char>, String)| (p.0, p.1@))
}

/// The listing of owned (path, hash) pairs.
pub open spec fn listing_of_pairs(v: Seq<(String, String)>) -> Listing {
    v.map_values(|p: (String, String)| (p.0@, p.1@))
}

/// True when the paths of `l` strictly increase in the byte order of their UTF-8 text.
pub open spec fn sorted_listing(l: Listing) -> bool {
    forall|i: int, j: int| 0 <= i < j < l.len() ==> key_lt(#[trigger] l[i].0, #[trigger] l[j].0)
}

/// The listing of a map's entries in increasing path order.
pub open spec fn canonical_listing(m: Map<Seq<char>, Seq<char>>) -> Listing {
    choose|l: Listing| sorted_listing(l) && pairs_map(l) == m
}

/// A sorted listing never repeats a path.
pub proof fn lemma_sorted_distinct(l: Listing)
    requires
        sorted_listing(l),
    ensures
        keys_distinct(l),
{
    assert forall|i: int, j: int| 0 <= i < l.len() && 0 <= j < l.len() && i != j implies #[trigger] l[i].0
        != #[trigger] l[j].0 by {
        if i < j {
            assert(key_lt(l[i].0, l[j].0));
            lemma_key_lt_irreflexive(l[i].0);
        } else {
            assert(key_lt(l[j].0, l[i].0));
            lemma_key_lt_irreflexive(l[j].0);
        }
    }
}

/// Two sorted listings of the same map are the same listing.
pub proof fn lemma_sorted_listing_unique(a: Listing, b: Listing)
    requires
        sorted_listing(a),
        sorted_listing(b),
        pairs_map(a) == pairs_map(b),
    ensures
        a == b,
    decreases a.len(),
{
    lemma_sorted_distinct(a);
    lemma_sorted_distinct(b);
    if a.len() == 0 {
        if b.len() > 0 {
            lemma_pairs_map_at(b, 0);
            assert(pairs_map(a).contains_key(b[0].0));
            let i = choose|i: int| 0 <= i < a.len() && #[trigger] a[i].0 == b[0].0;
        }
        assert(a =~= b);
    } else {
        if b.len() == 0 {
            lemma_pairs_map_at(a, 0);
            assert(pairs_map(b).contains_key(a[0].0));
            let i = choose|i: int| 0 <= i < b.len() && #[trigger] b[i].0 == a[0].0;
        }
        lemma_pairs_map_at(a, 0);
        lemma_pairs_map_at(b, 0);
        // a[0] and b[0] are both the least path of the map.
        if a[0].0 != b[0].0 {
            assert(pairs_map(a).contains_key(b[0].0));
            let i = choose|i: int| 0 <= i < a.len() && #[trigger] a[i].0 == b[0].0;
            assert(pairs_map(b).contains_key(a[0].0));
            let j = choose|j: int| 0 <= j < b.len() && #[trigger] b[j].0 == a[0].0;
            assert(i != 0 && j != 0);
            assert(key_lt(a[0].0, a[i].0));
            assert(key_lt(b[0].0, b[j].0));
            lemma_key_lt_asymmetric(a[0].0, b[0].0);
        }
        assert(a[0] == b[0]);
        lemma_pairs_map_remove(a, 0);
        lemma_pairs_map_remove(b, 0);
        let ta = a.remove(0);
        let tb = b.remove(0);
        assert(sorted_listing(ta)) by {
            assert forall|i: int, j: int| 0 <= i < j < ta.len() implies key_lt(#[trigger] ta[i].0, #[trigger] ta[j].0) by {
                assert(ta[i] == a[i + 1] && ta[j] == a[j + 1]);
            }
        }
        assert(sorted_listing(tb)) by {
            assert forall|i: int, j: int| 0 <= i < j < tb.len() implies key_lt(#[trigger] tb[i].0, #[trigger] tb[j].0) by {
                assert(tb[i] == b[i + 1] && tb[j] == b[j + 1]);
            }
        }
        lemma_sorted_listing_unique(ta, tb);
        assert(a =~= seq![a[0]] + ta);
        assert(b =~= seq![b[0]] + tb);
    }
}

/// A sorted listing of a map is its canonical listing.
pub proof fn lemma_canonical_listing(l: Listing)
    requires
        sorted_listing(l),
    ensures
        canonical_listing(pairs_map(l)) == l,
{
    let m = pairs_map(l);
    assert(sorted_listing(l) && pairs_map(l) == m);
    let c = canonical_listing(m);
    lemma_sorted_listing_unique(c, l);
}

/// One tree entry as JSON: `["<path>","<hash>"]`.
pub open spec fn entry_json(e: (Seq<char>, Seq<char>)) -> Seq<char> {
    "["@ + json_str(e.0) + ","@ + json_str(e.1) + "]"@
}

/// The comma-separated JSON of the entries of a listing.
pub open spec fn listing_body(l: Listing) -> Seq<char>
    decreases l.len(),
{
    if l.len() == 0 {
        seq![]
    } else if l.len() == 1 {
        entry_json(l[0])
    } else {
        listing_body(l.drop_last()) + ","@ + entry_json(l.last())
    }
}

/// The compact JSON array of a listing's entries.
pub open spec fn listing_json(l: Listing) -> Seq<char> {
    "["@ + listing_body(l) + "]"@
}

/// The hash of a tree that records `m`: SHA-256 of the JSON of its entries sorted by path.
pub open spec fn tree_hash_of(m: Map<Seq<char>, Seq<char>>) -> Seq<char> {
    content_hash_of(encode_utf8(listing_json(canonical_listing(m))))
}

/// Writes the JSON array of `entries`.
fn listing_json_text(entries: &Vec<(String, String)>) -> (r: String)
    ensures
        r@ == listing_json(listing_of_pairs(entries@)),
{
    let ghost l = listing_of_pairs(entries@);
    let mut r = owned("[");
    let n = entries.len();
    for i in 0..n
        invariant
            n == entries@.len(),
            l == listing_of_pairs(entries@),
            r@ == "["@ + listing_body(l.take(i as int)),
    {
        let ghost before = r@;
        if i > 0 {
            r.append(",");
        }
        r.append("[");
        push_json_str(&mut r, entries[i].0.as_str());
        r.append(",");
        push_json_str(&mut r, entries[i].1.as_str());
        r.append("]");
        proof {
            let t = l.take(i + 1);
            assert(t.drop_last() =~= l.take(i as int));
            assert(t.last() == l[i as int]);
            if i == 0 {
                assert(l.take(0) =~= Seq::<(Seq<char>, Seq<char>)>::empty());
                assert(listing_body(l.take(0)) == Seq::<char>::empty());
                assert(r@ =~= "["@ + entry_json(l[0]));
            } else {
                assert(r@ =~= "["@ + (listing_body(l.take(i as int)) + ","@ + entry_json(l[i as int])));
            }
        }
    }
    assert(l.take(n as int) =~= l);
    r.append("]");
    r
}

/// True when every path of `a` sorts before every path of `b`.
pub open spec fn all_before(a: Listing, b: Listing) -> bool {
    forall|i: int, j: int| 0 <= i < a.len() && 0 <= j < b.len() ==> key_lt(#[trigger] a[i].0, #[trigger] b[j].0)
}

/// The position of the least path among `v`, which is not empty.
fn least_key_index(v: &Vec<(String, String)>) -> (j: usize)
    requires
        v@.len() > 0,
        keys_distinct(listing_of_pairs(v@)),
    ensures
        j < v@.len(),
        forall|t: int| 0 <= t < v@.len() && t != j ==> key_lt(v@[j as int].0@, #[trigger] v@[t].0@),
{
    let mut j: usize = 0;
    let mut k: usize = 1;
    while k < v.len()
        invariant
            1 <= k <= v@.len(),
            j < k,
            keys_distinct(listing_of_pairs(v@)),
            forall|t: int| 0 <= t < k && t != j ==> key_lt(v@[j as int].0@, #[trigger] v@[t].0@),
        decreases v@.len() - k,
    {
        proof {
            let l = listing_of_pairs(v@);
            assert(l[k as int].0 == v@[k as int].0@ && l[j as int].0 == v@[j as int].0@);
            lemma_key_lt_total(v@[j as int].0@, v@[k as int].0@);
        }
        if key_less(&v[k].0, &v[j].0) {
            proof {
                assert forall|t: int| 0 <= t < k + 1 && t != k implies key_lt(v@[k as int].0@, #[trigger] v@[t].0@) by {
                    if t != j {
                        lemma_key_lt_transitive(v@[k as int].0@, v@[j as int].0@, v@[t].0@);
                    }
                }
            }
            j = k;
        }
        k = k + 1;
    }
    j
}

/// The entries of `entries` with owned text, in increasing path order.
fn sorted_entries(entries: &StrMap<String>) -> (out: Vec<(String, String)>)
    ensures
        sorted_listing(listing_of_pairs(out@)),
        pairs_map(listing_of_pairs(out@)) == pairs_map(listing_of(entries.pairs())),
        keys_distinct(entries.pairs()),
{
    let ghost target = pairs_map(listing_of(entries.pairs()));
    let n = entries.len();
    let mut rem: Vec<(String, String)> = Vec::new();
    for i in 0..n
        invariant
            n == entries.pairs().len(),
            keys_distinct(entries.pairs()),
            listing_of_pairs(rem@) == listing_of(entries.pairs()).take(i as int),
    {
        let ghost before = rem@;
        let k = entries.key_at(i).clone();
        let v = entries.value_at(i).clone();
        assert(k@ == entries.pairs()[i as int].0);
        assert(v@ == entries.pairs()[i as int].1@);
        rem.push((k, v));
        assert(rem@ == before.push((k, v)));
        assert(listing_of_pairs(rem@) =~= listing_of_pairs(before).push((k@, v@)));
        assert(listing_of(entries.pairs()).take(i + 1) =~= listing_of(entries.pairs()).take(i as int).push((k@, v@)));
    }
    assert(listing_of(entries.pairs()).take(n as int) =~= listing_of(entries.pairs()));
    proof {
        let l = listing_of(entries.pairs());
        assert forall|i: int, j: int| 0 <= i < l.len() && 0 <= j < l.len() && i != j implies #[trigger] l[i].0
            != #[trigger] l[j].0 by {
            assert(l[i].0 == entries.pairs()[i].0 && l[j].0 == entries.pairs()[j].0);
        }
        assert(pairs_map(Seq::<(Seq<char>, Seq<char>)>::empty()).union_prefer_right(pairs_map(l)) =~= pairs_map(l));
    }
    let mut out: Vec<(String, String)> = Vec::new();
    assert(listing_of_pairs(out@) =~= Seq::<(Seq<char>, Seq<char>)>::empty());
    while rem.len() > 0
        invariant
            keys_distinct(listing_of_pairs(out@)),
            keys_distinct(listing_of_pairs(rem@)),
            sorted_listing(listing_of_pairs(out@)),
            all_before(listing_of_pairs(out@), listing_of_pairs(rem@)),
            pairs_map(listing_of_pairs(out@)).union_prefer_right(pairs_map(listing_of_pairs(rem@)))
                == target,
        decreases rem@.len(),
    {
        let j = least_key_index(&rem);
        let ghost lo = listing_of_pairs(out@);
        let ghost lr = listing_of_pairs(rem@);
        let x = rem.remove(j);
        let ghost k = x.0@;
        let ghost val = x.1@;
        assert(lr[j as int] == (k, val));
        out.push(x);
        proof {
            let lo2 = listing_of_pairs(out@);
            let lr2 = listing_of_pairs(rem@);
            assert(lo2 =~= lo.push((k, val)));
            assert(lr2 =~= lr.remove(j as int));
            assert(!has_key(lo, k)) by {
                if has_key(lo, k) {
                    let i = choose|i: int| 0 <= i < lo.len() && #[trigger] lo[i].0 == k;
                    assert(key_lt(lo[i].0, lr[j as int].0));
                    lemma_key_lt_irreflexive(k);
                }
            }
            lemma_pairs_map_push(lo, k, val);
            lemma_pairs_map_remove(lr, j as int);
            lemma_pairs_map_at(lr, j as int);
            assert forall|a: int, b: int| 0 <= a < b < lo2.len() implies key_lt(#[trigger] lo2[a].0, #[trigger] lo2[b].0) by {
                if b < lo.len() {
                    assert(lo2[a] == lo[a] && lo2[b] == lo[b]);
                } else {
                    assert(lo2[a] == lo[a]);
                    assert(key_lt(lo[a].0, lr[j as int].0));
                }
            }
            assert forall|a: int, b: int| 0 <= a < lo2.len() && 0 <= b < lr2.len() implies key_lt(#[trigger] lo2[a].0, #[trigger] lr2[b].0) by {
                let b2 = if b < j { b } else { b + 1 };
                assert(lr2[b] == lr[b2]);
                if a < lo.len() {
                    assert(lo2[a] == lo[a]);
                } else {
                    assert(b2 != j);
                }
            }
            assert(pairs_map(lo2).union_prefer_right(pairs_map(lr2)) =~= target);
        }
    }
    proof {
        assert(listing_of_pairs(rem@) =~= Seq::<(Seq<char>, Seq<char>)>::empty());
        assert(pairs_map(listing_of_pairs(rem@)) =~= Map::<Seq<char>, Seq<char>>::empty());
        assert(pairs_map(listing_of_pairs(out@)).union_prefer_right(pairs_map(listing_of_pairs(rem@)))
            =~= pairs_map(listing_of_pairs(out@)));
    }
    out
}

/// The listing of a path map denotes its recorded hashes.
pub proof fn lemma_listing_map(entries: StrMap<String>)
    requires
        keys_distinct(entries.pairs()),
    ensures
        pairs_map(listing_of(entries.pairs())) == hash_view(entries.map()),
{
    let ps = entries.pairs();
    let l = listing_of(ps);
    assert forall|k: Seq<char>| #[trigger] has_key(l, k) == has_key(ps, k) by {
        if has_key(l, k) {
            let i = choose|i: int| 0 <= i < l.len() && #[trigger] l[i].0 == k;
            assert(ps[i].0 == k);
        }
        if has_key(ps, k) {
            let i = choose|i: int| 0 <= i < ps.len() && #[trigger] ps[i].0 == k;
            assert(l[i].0 == k);
        }
    }
    assert(keys_distinct(l)) by {
        assert forall|i: int, j: int| 0 <= i < l.len() && 0 <= j < l.len() && i != j implies #[trigger] l[i].0
            != #[trigger] l[j].0 by {
            assert(l[i].0 == ps[i].0 && l[j].0 == ps[j].0);
        }
    }
    assert forall|k: Seq<char>| has_key(l, k) implies #[trigger] pairs_map(l)[k] == hash_view(entries.map())[k] by {
        let i = key_index(l, k);
        lemma_pairs_map_at(l, i);
        lemma_pairs_map_at(ps, i);
    }
    assert(pairs_map(l) =~= hash_view(entries.map()));
}

/// The staging area: maps relative file paths to their SHA-256 object hashes.
pub struct Index {
    pub entries: StrMap<String>,
}

impl Index {
    /// An empty staging area.
    pub fn new() -> (r: Index)
        ensures
            r.entries.pairs().len() == 0,
            r.entries.map() == Map::<Seq<char>, String>::empty(),
    {
        Index { entries: StrMap::new() }
    }

    /// Stages a file: records the hash of `content` under `path` and returns that hash.
    pub fn stage(&mut self, path: String, content: &[u8]) -> (h: String)
        ensures
            h@ == content_hash_of(content@),
            final(self).entries.map() == old(self).entries.map().insert(path@, h),
    {
        let h = content_hash(content);
        self.entries.insert(path, h.clone());
        h
    }
}

/// A tree object records a snapshot of the index (path to blob hash).
pub struct Tree {
    pub entries: StrMap<String>,
}

impl Tree {
    /// Build a Tree from the current index.
    pub fn from_index(index: Index) -> (t: Tree)
        ensures
            t.entries == index.entries,
    {
        Tree { entries: index.entries }
    }

    /// Compute the deterministic SHA-256 hash of this tree's canonical JSON: its entries
    /// sorted by path, so the hash does not depend on insertion order.
    pub fn hash(&self) -> (r: String)
        ensures
            r@ == tree_hash_of(hash_view(self.entries.map())),
            r@.len() == 64,
    {
        let sorted = sorted_entries(&self.entries);
        let canonical = listing_json_text(&sorted);
        proof {
            lemma_canonical_listing(listing_of_pairs(sorted@));
            lemma_listing_map(self.entries);
        }
        content_hash(canonical.as_str().as_bytes())
    }

    /// Returns true when the tree contains no entries.
    pub fn is_empty(&self) -> (r: bool)
        ensures
            r == (self.entries.pairs().len() == 0),
            r == (self.entries.map() =~= Map::<Seq<char>, String>::empty()),
    {
        self.entries.is_empty()
    }
}

/// A commit object links a tree snapshot to its history and metadata.
pub struct Commit {
    /// Hash of the root Tree object.
    pub tree: String,
    /// Zero or more parent commit hashes.
    pub parents: Vec<String>,
    /// Hex-encoded ed25519 public key of the author.
    pub author: String,
    /// Unix timestamp (seconds since epoch).
    pub timestamp: u64,
    /// Human-readable commit message.
    pub message: String,
}

/// The comma-separated JSON string literals of `ps`.
pub open spec fn string_list_body(ps: Seq<Seq<char>>) -> Seq<char>
    decreases ps.len(),
{
    if ps.len() == 0 {
        seq![]
    } else if ps.len() == 1 {
        json_str(ps[0])
    } else {
        string_list_body(ps.drop_last()) + ","@ + json_str(ps.last())
    }
}

/// The texts of a list of strings.
pub open spec fn texts(v: Seq<String>) -> Seq<Seq<char>> {
    v.map_values(|s: String| s@)
}

/// The canonical compact JSON of a commit: its fields in declaration order.
pub open spec fn commit_json(c: Commit) -> Seq<char> {
    "{\"tree\":"@ + json_str(c.tree@) + ",\"parents\":["@ + string_list_body(texts(c.parents@))
        + "],\"author\":"@ + json_str(c.author@) + ",\"timestamp\":"@ + decimal(c.timestamp as nat)
        + ",\"message\":"@ + json_str(c.message@) + "}"@
}

/// The hash of a commit: SHA-256 of its canonical JSON.
pub open spec fn commit_hash_of(c: Commit) -> Seq<char> {
    content_hash_of(encode_utf8(commit_json(c)))
}

impl Commit {
    /// The canonical JSON of this commit, as it is hashed and stored.
    pub fn canonical_json(&self) -> (r: String)
        ensures
            r@ == commit_json(*self),
    {
        let mut r = owned("{\"tree\":");
        push_json_str(&mut r, self.tree.as_str());
        r.append(",\"parents\":[");
        let ghost start = r@;
        let ghost ps = texts(self.parents@);
        let n = self.parents.len();
        for i in 0..n
            invariant
                n == self.parents@.len(),
                ps == texts(self.parents@),
                r@ == start + string_list_body(ps.take(i as int)),
        {
            if i > 0 {
                r.append(",");
            }
            push_json_str(&mut r, self.parents[i].as_str());
            proof {
                let t = ps.take(i + 1);
                assert(t.drop_last() =~= ps.take(i as int));
                assert(t.last() == ps[i as int]);
                if i == 0 {
                    assert(ps.take(0) =~= Seq::<Seq<char>>::empty());
                    assert(r@ =~= start + json_str(ps[0]));
                } else {
                    assert(r@ =~= start + (string_list_body(ps.take(i as int)) + ","@ + json_str(ps[i as int])));
                }
            }
        }
        assert(ps.take(n as int) =~= ps);
        r.append("],\"author\":");
        push_json_str(&mut r, self.author.as_str());
        r.append(",\"timestamp\":");
        let ts = decimal_string(self.timestamp);
        r.append(ts.as_str());
        r.append(",\"message\":");
        push_json_str(&mut r, self.message.as_str());
        r.append("}");
        r
    }

    /// Compute the deterministic SHA-256 hash of this commit's canonical JSON.
    pub fn hash(&self) -> (r: String)
        ensures
            r@ == commit_hash_of(*self),
            r@.len() == 64,
    {
        let text = self.canonical_json();
        content_hash(text.as_str().as_bytes())
    }
}

/// The tree that committing `index` stores: refused with `No changes to commit` when the
/// index is empty.
pub fn commit_tree(index: Index) -> (r: Result<Tree, String>)
    ensures
        match r {
            Err(m) => index.entries.pairs().len() == 0 && m@ == "No changes to commit"@,
            Ok(tree) => index.entries.pairs().len() > 0 && tree.entries == index.entries,
        },
{
    let tree = Tree::from_index(index);
    if tree.is_empty() {
        return Err(owned("No changes to commit"));
    }
    Ok(tree)
}

/// The commit of `tree`: it names the tree's hash, `parent` (if any) as its only parent,
/// the author, the time and the message.
pub fn commit_of(tree: &Tree, parent: Option<String>, author: String, timestamp: u64, message: String) -> (commit: Commit)
    ensures
        commit.tree@ == tree_hash_of(hash_view(tree.entries.map())),
        commit.parents@.len() == (if parent is Some { 1int } else { 0int }),
        parent matches Some(p) ==> commit.parents@[0] == p,
        first_parent(commit) == opt_text(parent),
        commit.author == author,
        commit.timestamp == timestamp,
        commit.message == message,
{
    let tree_hash = tree.hash();
    let mut parents: Vec<String> = Vec::new();
    match parent {
        Some(p) => {
            parents.push(p);
        },
        None => {},
    }
    Commit { tree: tree_hash, parents, author, timestamp, message }
}

/// Builds the tree and commit that committing `index` makes: refused with
/// `No changes to commit` when the index is empty; otherwise the tree holds the index's
/// entries and the commit names that tree's hash, `parent` (if any) as its only parent,
/// the author, the time and the message.
pub fn prepare_commit(
    index: Index,
    parent: Option<String>,
    author: String,
    timestamp: u64,
    message: String,
) -> (r: Result<(Tree, Commit), String>)
    ensures
        match r {
            Err(m) => index.entries.pairs().len() == 0 && m@ == "No changes to commit"@,
            Ok((tree, commit)) => {
                &&& index.entries.pairs().len() > 0
                &&& tree.entries == index.entries
                &&& commit.tree@ == tree_hash_of(hash_view(index.entries.map()))
                &&& commit.parents@.len() == (if parent is Some { 1int } else { 0int })
                &&& (parent matches Some(p) ==> commit.parents@[0] == p)
                &&& first_parent(commit) == opt_text(parent)
                &&& commit.author == author
                &&& commit.timestamp == timestamp
                &&& commit.message == message
            },
        },
{
    let tree = commit_tree(index)?;
    let commit = commit_of(&tree, parent, author, timestamp, message);
    Ok((tree, commit))
}

/// Splits an object hash into the directory (first two bytes) and file name (the rest)
/// of its loose object, when the text can be cut after two bytes.
pub fn object_location(hash: &str) -> (r: Option<(String, String)>)
    ensures
        r is Some <==> is_char_boundary(encode_utf8(hash@), 2),
        r matches Some((d, f)) ==> encode_utf8(d@) == encode_utf8(hash@).subrange(0, 2)
            && encode_utf8(f@) == encode_utf8(hash@).subrange(2, encode_utf8(hash@).len() as int),
{
    if hash.is_char_boundary(2) {
        let (d, f) = hash.split_at(2);
        Some((d.to_owned(), f.to_owned()))
    } else {
        None
    }
}

/// A tree's hash is the hash of its entries listed in increasing path order, whatever
/// order they were inserted in.
pub proof fn law_tree_hash_is_sorted_listing(l: Listing)
    requires
        sorted_listing(l),
    ensures
        tree_hash_of(pairs_map(l)) == content_hash_of(encode_utf8(listing_json(l))),
{
    lemma_canonical_listing(l);
}

} // verus!
