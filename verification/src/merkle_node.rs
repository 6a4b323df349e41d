//! One node of the merkle tree, and the indexing algorithm that builds the
//! whole tree bottom-up from a filesystem snapshot.

use vstd::prelude::*;
use vstd::utf8::encode_utf8;
use crate::algorithm::Algorithm;
use crate::algorithm::combine_all;
use crate::algorithm::combine_of;
use crate::algorithm::hash_of;
use crate::error::ErrorModel;
use crate::error::IndexingError;
use crate::fs_tree::FsChild;
use crate::fs_tree::FsEntryPath;
use crate::fs_tree::FsTree;
use crate::merkle_item::MerkleItem;
use crate::merkle_path::MerklePath;
use crate::path_text::file_name_of;
use crate::path_text::lex_le;
use crate::path_text::strip_root_prefix;

verus! {

/// Represents a single node on the merkle tree.
pub struct MerkleNode {
    /// The node's payload: path pair, digest, and children paths.
    pub item: MerkleItem,
    /// The node's immediate children, in ascending order of relative path.
    pub children: Vec<MerkleNode>,
}

/// The resolution of one readable directory entry: its relative and
/// absolute paths, the digest of the subtree under it, and that subtree.
pub ghost struct ChildRec {
    pub rel: Seq<char>,
    pub abs: Seq<char>,
    pub hash: Seq<u8>,
    pub tree: FsTree,
}

/// The cause recorded when an entry's absolute path does not lie under
/// the indexing root.
pub open spec fn strip_cause() -> Seq<char> {
    "path does not lie under the root"@
}

/// The digest a node receives, or the first error met while indexing it:
/// the digest of its contents (file bytes, or combined child digests),
/// mixed with its name when names are hashed.
pub open spec fn node_outcome(
    root: Seq<char>,
    abs: Seq<char>,
    hash_names: bool,
    alg: Algorithm,
    fs: FsTree,
) -> Result<Seq<u8>, ErrorModel>
    decreases fs, 1int, 0int,
{
    match contents_outcome(root, abs, hash_names, alg, fs) {
        Err(e) => Err(e),
        Ok(contents) => if hash_names {
            match file_name_of(abs) {
                None => Err(ErrorModel::UnableToReadFileName { path: abs }),
                Some(name) => Ok(combine_of(alg, encode_utf8(name), contents)),
            }
        } else {
            Ok(contents)
        },
    }
}

/// The digest of a node's contents alone, before any name mixing: the
/// digest of a file's bytes, or the pairwise reduction of a directory's
/// child digests in sorted order, with the digest of the empty byte
/// sequence substituted for a directory with no children.
pub open spec fn contents_outcome(
    root: Seq<char>,
    abs: Seq<char>,
    hash_names: bool,
    alg: Algorithm,
    fs: FsTree,
) -> Result<Seq<u8>, ErrorModel>
    decreases fs, 0int, 0int,
{
    match fs {
        FsTree::File { content } => Ok(hash_of(alg, content@)),
        FsTree::FileUnreadable { cause } => Err(
            ErrorModel::UnableToReadFile { path: abs, cause: cause@ },
        ),
        FsTree::DirUnreadable { cause } => Err(
            ErrorModel::UnableToReadDir { path: abs, cause: cause@ },
        ),
        FsTree::Dir { entries } => match entries_outcome(root, abs, hash_names, alg, entries@, 0) {
            Err(e) => Err(e),
            Ok(recs) => match combine_all(alg, rec_hashes(sort_recs(recs))) {
                None => Ok(hash_of(alg, Seq::<u8>::empty())),
                Some(h) => Ok(h),
            },
        },
    }
}

/// The resolutions of a directory's entries from position `i` on, in the
/// order the filesystem reported them, or the first error among them.
pub open spec fn entries_outcome(
    root: Seq<char>,
    parent_abs: Seq<char>,
    hash_names: bool,
    alg: Algorithm,
    entries: Seq<FsChild>,
    i: int,
) -> Result<Seq<ChildRec>, ErrorModel>
    decreases entries, 0int, entries.len() - i,
{
    if i < 0 || i >= entries.len() {
        Ok(Seq::empty())
    } else {
        match entry_outcome(root, parent_abs, hash_names, alg, entries[i]) {
            Err(e) => Err(e),
            Ok(rec) => match entries_outcome(root, parent_abs, hash_names, alg, entries, i + 1) {
                Err(e) => Err(e),
                Ok(rest) => Ok(seq![rec] + rest),
            },
        }
    }
}

/// The resolution of one directory entry: an unreadable entry, an entry
/// whose path is not text, and an entry lying outside the root each yield
/// their error; otherwise the subtree under the entry is indexed.
pub open spec fn entry_outcome(
    root: Seq<char>,
    parent_abs: Seq<char>,
    hash_names: bool,
    alg: Algorithm,
    e: FsChild,
) -> Result<ChildRec, ErrorModel>
    decreases e, 0int, 0int,
{
    match e {
        FsChild::Unreadable { cause } => Err(
            ErrorModel::UnableToReadDirEntry { path: parent_abs, cause: cause@ },
        ),
        FsChild::Entry { path, tree } => match path {
            FsEntryPath::NotText { lossy } => Err(
                ErrorModel::PathIsNotValidUtf8 { path: lossy@ },
            ),
            FsEntryPath::Text { path: abs } => match strip_root_prefix(root, abs@) {
                None => Err(
                    ErrorModel::UnableToStripRootPrefix {
                        path: abs@,
                        root: root,
                        cause: strip_cause(),
                    },
                ),
                Some(rel) => match node_outcome(root, abs@, hash_names, alg, tree) {
                    Err(e) => Err(e),
                    Ok(h) => Ok(ChildRec { rel: rel, abs: abs@, hash: h, tree: tree }),
                },
            },
        },
    }
}

/// The digests of a list of resolved entries, in the order given.
pub open spec fn rec_hashes(rs: Seq<ChildRec>) -> Seq<Seq<u8>> {
    Seq::new(rs.len(), |i: int| rs[i].hash)
}

/// Inserts a resolved entry into a list ordered by relative path: before
/// the first entry whose path is larger, and not at all when an entry
/// with the same path is already present (the existing one is kept).
pub open spec fn insert_rec(sorted: Seq<ChildRec>, r: ChildRec) -> Seq<ChildRec>
    decreases sorted.len(),
{
    if sorted.len() == 0 {
        seq![r]
    } else if r.rel == sorted[0].rel {
        sorted
    } else if lex_le(r.rel, sorted[0].rel) {
        seq![r] + sorted
    } else {
        seq![sorted[0]] + insert_rec(sorted.drop_first(), r)
    }
}

/// Orders a list of resolved entries by relative path, dropping every
/// entry whose path an earlier entry already used.
pub open spec fn sort_recs(rs: Seq<ChildRec>) -> Seq<ChildRec>
    decreases rs.len(),
{
    if rs.len() == 0 {
        Seq::empty()
    } else {
        insert_rec(sort_recs(rs.drop_last()), rs.last())
    }
}

/// Whether a built node is exactly what indexing a snapshot describes:
/// its paths are the given ones, its digest is the outcome the snapshot
/// assigns, its children are the snapshot's resolved entries in sorted
/// order (each matching recursively), and its materialized children paths
/// mirror its children.
pub open spec fn node_matches(
    n: MerkleNode,
    root: Seq<char>,
    rel: Seq<char>,
    abs: Seq<char>,
    hash_names: bool,
    alg: Algorithm,
    fs: FsTree,
) -> bool
    decreases n,
{
    &&& n.item.path.relative@ == rel
    &&& n.item.path.absolute@ == abs
    &&& node_outcome(root, abs, hash_names, alg, fs) == Ok::<Seq<u8>, ErrorModel>(n.item.hash@)
    &&& n.item.children_paths@.len() == n.children@.len()
    &&& (forall|k: int|
        0 <= k < n.children@.len() ==> n.item.children_paths@[k]@ == n.children@[k].item.path@)
    &&& match fs {
        FsTree::Dir { entries } => {
            let sorted = sort_recs(
                entries_outcome(root, abs, hash_names, alg, entries@, 0)->Ok_0,
            );
            &&& n.children@.len() == sorted.len()
            &&& (forall|k: int|
                0 <= k < n.children@.len() ==> node_matches(
                    n.children@[k],
                    root,
                    sorted[k].rel,
                    sorted[k].abs,
                    hash_names,
                    alg,
                    sorted[k].tree,
                ))
        },
        _ => n.children@.len() == 0,
    }
}

/// The resolutions of the first `i` entries of a directory, in the order
/// the filesystem reported them, each assumed successful.
pub open spec fn prefix_recs(
    root: Seq<char>,
    parent_abs: Seq<char>,
    hash_names: bool,
    alg: Algorithm,
    entries: Seq<FsChild>,
    i: int,
) -> Seq<ChildRec> {
    Seq::new(
        i as nat,
        |j: int| entry_outcome(root, parent_abs, hash_names, alg, entries[j])->Ok_0,
    )
}

proof fn lemma_entries_outcome_split(
    root: Seq<char>,
    parent_abs: Seq<char>,
    hash_names: bool,
    alg: Algorithm,
    entries: Seq<FsChild>,
    i: int,
)
    requires
        0 <= i <= entries.len(),
        forall|j: int|
            0 <= j < i ==> entry_outcome(root, parent_abs, hash_names, alg, entries[j]) is Ok,
    ensures
        entries_outcome(root, parent_abs, hash_names, alg, entries, 0) == (
        match entries_outcome(root, parent_abs, hash_names, alg, entries, i) {
            Err(e) => Err::<Seq<ChildRec>, ErrorModel>(e),
            Ok(rest) => Ok(prefix_recs(root, parent_abs, hash_names, alg, entries, i) + rest),
        }),
    decreases i,
{
    if i == 0 {
        match entries_outcome(root, parent_abs, hash_names, alg, entries, 0) {
            Err(e) => {},
            Ok(rest) => {
                assert(prefix_recs(root, parent_abs, hash_names, alg, entries, 0) + rest
                    =~= rest);
            },
        }
    } else {
        lemma_entries_outcome_split(root, parent_abs, hash_names, alg, entries, i - 1);
        let rec = entry_outcome(root, parent_abs, hash_names, alg, entries[i - 1])->Ok_0;
        match entries_outcome(root, parent_abs, hash_names, alg, entries, i) {
            Err(e) => {},
            Ok(rest) => {
                assert(prefix_recs(root, parent_abs, hash_names, alg, entries, i - 1) + (
                seq![rec] + rest) =~= prefix_recs(
                    root,
                    parent_abs,
                    hash_names,
                    alg,
                    entries,
                    i,
                ) + rest);
            },
        }
    }
}

proof fn lemma_insert_rec_at(ss: Seq<ChildRec>, r: ChildRec, pos: int)
    requires
        0 <= pos <= ss.len(),
        forall|m: int| 0 <= m < pos ==> !lex_le(r.rel, ss[m].rel),
        pos < ss.len() ==> lex_le(r.rel, ss[pos].rel),
    ensures
        insert_rec(ss, r) == (
        if pos < ss.len() && ss[pos].rel == r.rel {
            ss
        } else {
            ss.insert(pos, r)
        }),
    decreases pos,
{
    if pos == 0 {
        if ss.len() == 0 {
            assert(ss.insert(0, r) =~= seq![r]);
        } else if r.rel == ss[0].rel {
        } else {
            assert(ss.insert(0, r) =~= seq![r] + ss);
        }
    } else {
        crate::path_text::lemma_lex_le_reflexive(r.rel);
        assert(r.rel != ss[0].rel);
        lemma_insert_rec_at(ss.drop_first(), r, pos - 1);
        assert(forall|m: int|
            0 <= m < pos - 1 ==> ss.drop_first()[m] == ss[m + 1]);
        if pos < ss.len() && ss[pos].rel == r.rel {
            assert(ss.drop_first()[pos - 1] == ss[pos]);
            assert(insert_rec(ss, r) == seq![ss[0]] + ss.drop_first());
            assert(seq![ss[0]] + ss.drop_first() =~= ss);
        } else {
            assert(insert_rec(ss, r) == seq![ss[0]] + ss.drop_first().insert(pos - 1, r));
            assert(seq![ss[0]] + ss.drop_first().insert(pos - 1, r) =~= ss.insert(pos, r));
        }
    }
}

/// The part of [`node_matches`] that speaks of the children alone.
pub open spec fn children_match(
    children: Seq<MerkleNode>,
    root: Seq<char>,
    abs: Seq<char>,
    hash_names: bool,
    alg: Algorithm,
    fs: FsTree,
) -> bool {
    match fs {
        FsTree::Dir { entries } => {
            let sorted = sort_recs(
                entries_outcome(root, abs, hash_names, alg, entries@, 0)->Ok_0,
            );
            &&& children.len() == sorted.len()
            &&& (forall|k: int|
                0 <= k < children.len() ==> node_matches(
                    children[k],
                    root,
                    sorted[k].rel,
                    sorted[k].abs,
                    hash_names,
                    alg,
                    sorted[k].tree,
                ))
        },
        _ => children.len() == 0,
    }
}

impl MerkleNode {
    /// Creates a new root node: indexes the whole snapshot rooted at the
    /// given absolute path, whose relative path is empty by definition.
    pub fn root(root: &str, hash_names: bool, algorithm: Algorithm, fs: &FsTree) -> (r: Result<
        MerkleNode,
        IndexingError,
    >)
        ensures
            match r {
                Ok(n) => node_outcome(root@, root@, hash_names, algorithm, *fs) is Ok
                    && node_matches(
                    n,
                    root@,
                    Seq::<char>::empty(),
                    root@,
                    hash_names,
                    algorithm,
                    *fs,
                ),
                Err(e) => node_outcome(root@, root@, hash_names, algorithm, *fs) == Err::<
                    Seq<u8>,
                    ErrorModel,
                >(e@),
            },
    {
        let relative_path = String::new();
        let absolute_path = root.to_owned();
        let path = MerklePath::new(relative_path, absolute_path);
        proof {
            assert(path@.relative =~= Seq::<char>::empty());
        }
        Self::index(root, path, hash_names, &algorithm, fs)
    }

    /// Indexes a new node against a snapshot: builds its children first,
    /// derives its contents hash from them (directory) or from its bytes
    /// (file), and mixes in its name when names are hashed.
    #[verifier::loop_isolation(false)]
    #[verifier::rlimit(60)]
    fn index(
        root: &str,
        path: MerklePath,
        hash_names: bool,
        algorithm: &Algorithm,
        fs: &FsTree,
    ) -> (r: Result<MerkleNode, IndexingError>)
        ensures
            match r {
                Ok(n) => node_outcome(root@, path@.absolute, hash_names, *algorithm, *fs) is Ok
                    && node_matches(
                    n,
                    root@,
                    path@.relative,
                    path@.absolute,
                    hash_names,
                    *algorithm,
                    *fs,
                ),
                Err(e) => node_outcome(root@, path@.absolute, hash_names, *algorithm, *fs)
                    == Err::<Seq<u8>, ErrorModel>(e@),
            },
        decreases *fs, 1int,
    {
        let ghost rootv = root@;
        let ghost absv = path@.absolute;
        let ghost alg = *algorithm;
        let (contents_hash, children): (Vec<u8>, Vec<MerkleNode>) = match fs {
            FsTree::FileUnreadable { cause } => {
                return Err(
                    IndexingError::UnableToReadFile { path: path.absolute, cause: cause.clone() },
                );
            },
            FsTree::DirUnreadable { cause } => {
                return Err(
                    IndexingError::UnableToReadDir { path: path.absolute, cause: cause.clone() },
                );
            },
            FsTree::File { content } => {
                let h = algorithm.compute_hash(content.as_slice());
                (h, Vec::new())
            },
            FsTree::Dir { entries } => {
                let children = match Self::index_children(
                    root,
                    &path.absolute,
                    hash_names,
                    algorithm,
                    entries,
                ) {
                    Ok(cs) => cs,
                    Err(e) => {
                        return Err(e);
                    },
                };
                let ghost sorted = sort_recs(
                    entries_outcome(rootv, absv, hash_names, alg, entries@, 0)->Ok_0,
                );
                let mut hashes: Vec<Vec<u8>> = Vec::new();
                let mut k: usize = 0;
                while k < children.len()
                    invariant
                        k <= children@.len(),
                        hashes@.len() == k,
                        forall|m: int| 0 <= m < k ==> hashes@[m]@ == sorted[m].hash,
                    decreases children@.len() - k,
                {
                    let h = vstd::slice::slice_to_vec(children[k].item.hash.as_slice());
                    hashes.push(h);
                    k = k + 1;
                }
                proof {
                    assert(crate::algorithm::digests_of(hashes@) =~= rec_hashes(sorted));
                }
                let ch = match algorithm.compute_merkle_hash(&hashes) {
                    Some(h) => h,
                    None => {
                        let empty_bytes: Vec<u8> = Vec::new();
                        algorithm.compute_hash(empty_bytes.as_slice())
                    },
                };
                proof {
                    assert(contents_outcome(rootv, absv, hash_names, alg, *fs) == Ok::<
                        Seq<u8>,
                        ErrorModel,
                    >(ch@));
                }
                (ch, children)
            },
        };
        proof {
            assert(contents_outcome(rootv, absv, hash_names, alg, *fs) == Ok::<
                Seq<u8>,
                ErrorModel,
            >(contents_hash@));
            assert(children_match(children@, rootv, absv, hash_names, alg, *fs));
        }
        let node_hash: Vec<u8> = if hash_names {
            match crate::path_text::file_name(path.absolute.as_str()) {
                None => {
                    return Err(IndexingError::UnableToReadFileName { path: path.absolute });
                },
                Some(name) => algorithm.compute_hash_from_slices(
                    name.as_str().as_bytes(),
                    contents_hash.as_slice(),
                ),
            }
        } else {
            contents_hash
        };
        let mut children_paths: Vec<MerklePath> = Vec::new();
        let mut k: usize = 0;
        while k < children.len()
            invariant
                k <= children@.len(),
                children_paths@.len() == k,
                forall|m: int| 0 <= m < k ==> children_paths@[m]@ == children@[m].item.path@,
            decreases children@.len() - k,
        {
            let p = children[k].item.path.duplicate();
            children_paths.push(p);
            k = k + 1;
        }
        let item = MerkleItem::new(path, node_hash, children_paths);
        let node = MerkleNode { item, children };
        proof {
            assert(node_matches(node, rootv, path@.relative, absv, hash_names, alg, *fs));
        }
        Ok(node)
    }

    /// Indexes the immediate entries of a directory, in the order the
    /// snapshot reports them, and collects the finished child nodes in
    /// ascending order of relative path, keeping the first of any two
    /// entries that map to the same relative path.
    #[verifier::loop_isolation(false)]
    #[verifier::rlimit(60)]
    fn index_children(
        root: &str,
        parent_abs: &String,
        hash_names: bool,
        algorithm: &Algorithm,
        entries: &Vec<FsChild>,
    ) -> (r: Result<Vec<MerkleNode>, IndexingError>)
        ensures
            match r {
                Ok(cs) => ({
                    let eo = entries_outcome(root@, parent_abs@, hash_names, *algorithm, entries@, 0);
                    let sorted = sort_recs(eo->Ok_0);
                    &&& eo is Ok
                    &&& cs@.len() == sorted.len()
                    &&& (forall|k: int|
                        0 <= k < cs@.len() ==> node_matches(
                            cs@[k],
                            root@,
                            sorted[k].rel,
                            sorted[k].abs,
                            hash_names,
                            *algorithm,
                            sorted[k].tree,
                        ))
                    &&& (forall|k: int| 0 <= k < cs@.len() ==> cs@[k].item.hash@ == sorted[k].hash)
                }),
                Err(e) => entries_outcome(root@, parent_abs@, hash_names, *algorithm, entries@, 0)
                    == Err::<Seq<ChildRec>, ErrorModel>(e@),
            },
        decreases *entries, 0int,
    {
        let ghost rootv = root@;
        let ghost absv = parent_abs@;
        let ghost alg = *algorithm;
        let mut children: Vec<MerkleNode> = Vec::new();
        let mut i: usize = 0;
        while i < entries.len()
            invariant
                i <= entries@.len(),
                forall|j: int|
                    0 <= j < i ==> entry_outcome(rootv, absv, hash_names, alg, entries@[j]) is Ok,
                ({
                    let sorted = sort_recs(
                        prefix_recs(rootv, absv, hash_names, alg, entries@, i as int),
                    );
                    &&& children@.len() == sorted.len()
                    &&& (forall|k: int|
                        0 <= k < children@.len() ==> node_matches(
                            children@[k],
                            rootv,
                            sorted[k].rel,
                            sorted[k].abs,
                            hash_names,
                            alg,
                            sorted[k].tree,
                        ))
                    &&& (forall|k: int|
                        0 <= k < children@.len() ==> children@[k].item.hash@ == sorted[k].hash)
                    &&& (forall|k: int|
                        0 <= k < children@.len() ==> children@[k].item.path.relative@
                            == sorted[k].rel)
                }),
            decreases entries@.len() - i,
        {
            let ghost prefix_pre = prefix_recs(rootv, absv, hash_names, alg, entries@, i as int);
            let ghost sorted_pre = sort_recs(prefix_pre);
            let e = &entries[i];
            match e {
                FsChild::Unreadable { cause } => {
                    let err = IndexingError::UnableToReadDirEntry {
                        path: parent_abs.clone(),
                        cause: cause.clone(),
                    };
                    proof {
                        lemma_entries_outcome_split(rootv, absv, hash_names, alg, entries@, i as int);
                    }
                    return Err(err);
                },
                FsChild::Entry { path: FsEntryPath::NotText { lossy }, tree: _ } => {
                    let err = IndexingError::PathIsNotValidUtf8 { path: lossy.clone() };
                    proof {
                        lemma_entries_outcome_split(rootv, absv, hash_names, alg, entries@, i as int);
                    }
                    return Err(err);
                },
                FsChild::Entry { path: FsEntryPath::Text { path: eabs }, tree } => {
                    match crate::path_text::strip_prefix(root, eabs.as_str()) {
                        None => {
                            let err = IndexingError::UnableToStripRootPrefix {
                                path: eabs.clone(),
                                root: root.to_owned(),
                                cause: "path does not lie under the root".to_owned(),
                            };
                            proof {
                                lemma_entries_outcome_split(
                                    rootv,
                                    absv,
                                    hash_names,
                                    alg,
                                    entries@,
                                    i as int,
                                );
                            }
                            return Err(err);
                        },
                        Some(rel) => {
                            let cpath = MerklePath::new(rel, eabs.clone());
                            match Self::index(root, cpath, hash_names, algorithm, tree) {
                                Err(err) => {
                                    proof {
                                        lemma_entries_outcome_split(
                                            rootv,
                                            absv,
                                            hash_names,
                                            alg,
                                            entries@,
                                            i as int,
                                        );
                                    }
                                    return Err(err);
                                },
                                Ok(c) => {
                                    let ghost rec = entry_outcome(
                                        rootv,
                                        absv,
                                        hash_names,
                                        alg,
                                        entries@[i as int],
                                    )->Ok_0;
                                    proof {
                                        assert(rec.rel == c.item.path.relative@);
                                        assert(rec.abs == c.item.path.absolute@);
                                        assert(rec.hash == c.item.hash@);
                                        assert(rec.tree == *tree);
                                    }
                                    let mut pos: usize = 0;
                                    while pos < children.len() && !crate::path_text::str_le(
                                        c.item.path.relative.as_str(),
                                        children[pos].item.path.relative.as_str(),
                                    )
                                        invariant
                                            pos <= children@.len(),
                                            forall|m: int|
                                                0 <= m < pos ==> !lex_le(
                                                    c.item.path.relative@,
                                                    children@[m].item.path.relative@,
                                                ),
                                        decreases children@.len() - pos,
                                    {
                                        pos = pos + 1;
                                    }
                                    let mut is_dup = false;
                                    if pos < children.len() {
                                        if children[pos].item.path.relative == c.item.path.relative {
                                            is_dup = true;
                                        }
                                    }
                                    proof {
                                        lemma_insert_rec_at(sorted_pre, rec, pos as int);
                                        let prefix_next = prefix_recs(
                                            rootv,
                                            absv,
                                            hash_names,
                                            alg,
                                            entries@,
                                            (i as int) + 1,
                                        );
                                        assert(prefix_next.drop_last() =~= prefix_pre);
                                        assert(prefix_next.last() == rec);
                                        assert(sort_recs(prefix_next) == insert_rec(sorted_pre, rec));
                                        sorted_pre.insert_ensures(pos as int, rec);
                                    }
                                    if !is_dup {
                                        children.insert(pos, c);
                                    }
                                },
                            }
                        },
                    }
                },
            }
            i = i + 1;
        }
        proof {
            lemma_entries_outcome_split(
                rootv,
                absv,
                hash_names,
                alg,
                entries@,
                entries@.len() as int,
            );
            let prefix_all = prefix_recs(
                rootv,
                absv,
                hash_names,
                alg,
                entries@,
                entries@.len() as int,
            );
            assert(prefix_all + Seq::<ChildRec>::empty() =~= prefix_all);
        }
        Ok(children)
    }
}

/// Pairwise distinct relative paths.
pub open spec fn distinct_keys(rs: Seq<ChildRec>) -> bool {
    forall|i: int, j: int| 0 <= i < j < rs.len() ==> rs[i].rel != rs[j].rel
}

/// Strictly ascending relative paths: every earlier entry's path is
/// below every later one's, and no two are equal.
pub open spec fn strictly_sorted_recs(rs: Seq<ChildRec>) -> bool {
    forall|i: int, j: int|
        0 <= i < j < rs.len() ==> lex_le(rs[i].rel, rs[j].rel) && rs[i].rel != rs[j].rel
}

proof fn lemma_insert_rec_elements(ss: Seq<ChildRec>, r: ChildRec)
    ensures
        ss.len() <= insert_rec(ss, r).len() <= ss.len() + 1,
        forall|k: int|
            0 <= k < insert_rec(ss, r).len() ==> ss.contains(#[trigger] insert_rec(ss, r)[k])
                || insert_rec(ss, r)[k] == r,
    decreases ss.len(),
{
    let res = insert_rec(ss, r);
    if ss.len() == 0 {
    } else if r.rel == ss[0].rel {
        assert forall|k: int| 0 <= k < res.len() implies ss.contains(#[trigger] res[k]) || res[k]
            == r by {
            assert(ss[k] == res[k]);
            assert(ss.contains(ss[k]));
        }
    } else if lex_le(r.rel, ss[0].rel) {
        assert forall|k: int| 0 <= k < res.len() implies ss.contains(#[trigger] res[k]) || res[k]
            == r by {
            if k > 0 {
                assert(res[k] == ss[k - 1]);
                assert(ss.contains(ss[k - 1]));
            }
        }
    } else {
        lemma_insert_rec_elements(ss.drop_first(), r);
        let df = ss.drop_first();
        assert forall|k: int| 0 <= k < res.len() implies ss.contains(#[trigger] res[k]) || res[k]
            == r by {
            if k == 0 {
                assert(res[0] == ss[0]);
                assert(ss.contains(ss[0]));
            } else {
                let x = insert_rec(df, r)[k - 1];
                assert(res[k] == x);
                if x != r {
                    assert(df.contains(x));
                    let m = choose|m: int| 0 <= m < df.len() && df[m] == x;
                    assert(ss[m + 1] == x);
                    assert(ss.contains(ss[m + 1]));
                }
            }
        }
    }
}

proof fn lemma_insert_rec_sorted(ss: Seq<ChildRec>, r: ChildRec)
    requires
        strictly_sorted_recs(ss),
    ensures
        strictly_sorted_recs(insert_rec(ss, r)),
    decreases ss.len(),
{
    let res = insert_rec(ss, r);
    if ss.len() == 0 {
    } else if r.rel == ss[0].rel {
    } else if lex_le(r.rel, ss[0].rel) {
        assert forall|i: int, j: int| 0 <= i < j < res.len() implies lex_le(
            res[i].rel,
            res[j].rel,
        ) && res[i].rel != res[j].rel by {
            if i == 0 {
                assert(res[0] == r);
                assert(res[j] == ss[j - 1]);
                if j > 1 {
                    crate::path_text::lemma_lex_le_transitive(r.rel, ss[0].rel, ss[j - 1].rel);
                    if r.rel == ss[j - 1].rel {
                        crate::path_text::lemma_lex_le_antisymmetric(ss[0].rel, r.rel);
                        assert(false);
                    }
                }
            } else {
                assert(res[i] == ss[i - 1] && res[j] == ss[j - 1]);
            }
        }
    } else {
        let df = ss.drop_first();
        lemma_insert_rec_sorted(df, r);
        lemma_insert_rec_elements(df, r);
        crate::path_text::lemma_lex_le_total(r.rel, ss[0].rel);
        if ss[0].rel == r.rel {
            crate::path_text::lemma_lex_le_reflexive(r.rel);
            assert(false);
        }
        assert forall|i: int, j: int| 0 <= i < j < res.len() implies lex_le(
            res[i].rel,
            res[j].rel,
        ) && res[i].rel != res[j].rel by {
            if i == 0 {
                assert(res[0] == ss[0]);
                let x = insert_rec(df, r)[j - 1];
                assert(res[j] == x);
                if x == r {
                    assert(lex_le(ss[0].rel, r.rel) && ss[0].rel != r.rel);
                } else {
                    assert(df.contains(x));
                    let m = choose|m: int| 0 <= m < df.len() && df[m] == x;
                    assert(ss[m + 1] == x);
                    assert(lex_le(ss[0].rel, ss[m + 1].rel) && ss[0].rel != ss[m + 1].rel);
                }
            } else {
                assert(res[i] == insert_rec(df, r)[i - 1]);
                assert(res[j] == insert_rec(df, r)[j - 1]);
            }
        }
    }
}

proof fn lemma_sort_recs_sorted(rs: Seq<ChildRec>)
    ensures
        strictly_sorted_recs(sort_recs(rs)),
    decreases rs.len(),
{
    if rs.len() > 0 {
        lemma_sort_recs_sorted(rs.drop_last());
        lemma_insert_rec_sorted(sort_recs(rs.drop_last()), rs.last());
    }
}

proof fn lemma_sort_recs_elements(rs: Seq<ChildRec>)
    ensures
        forall|k: int| 0 <= k < sort_recs(rs).len() ==> rs.contains(#[trigger] sort_recs(rs)[k]),
    decreases rs.len(),
{
    if rs.len() > 0 {
        let dl = rs.drop_last();
        lemma_sort_recs_elements(dl);
        lemma_insert_rec_elements(sort_recs(dl), rs.last());
        assert forall|k: int| 0 <= k < sort_recs(rs).len() implies rs.contains(
            #[trigger] sort_recs(rs)[k],
        ) by {
            let x = sort_recs(rs)[k];
            if x == rs.last() {
                assert(rs[rs.len() - 1] == x);
                assert(rs.contains(x));
            } else {
                assert(sort_recs(dl).contains(x));
                let m = choose|m: int| 0 <= m < sort_recs(dl).len() && sort_recs(dl)[m] == x;
                assert(dl.contains(sort_recs(dl)[m]));
                let i = choose|i: int| 0 <= i < dl.len() && dl[i] == x;
                assert(rs[i] == x);
                assert(rs.contains(x));
            }
        }
    }
}

proof fn lemma_insert_rec_multiset(ss: Seq<ChildRec>, r: ChildRec)
    requires
        forall|m: int| 0 <= m < ss.len() ==> ss[m].rel != r.rel,
    ensures
        insert_rec(ss, r).to_multiset() == ss.to_multiset().insert(r),
    decreases ss.len(),
{
    broadcast use vstd::seq_lib::group_to_multiset_ensures;
    broadcast use vstd::multiset::group_multiset_axioms;

    if ss.len() == 0 {
        assert(insert_rec(ss, r) =~= ss.push(r));
    } else if r.rel == ss[0].rel {
        assert(false);
    } else if lex_le(r.rel, ss[0].rel) {
        assert(insert_rec(ss, r) =~= ss.insert(0, r));
    } else {
        let df = ss.drop_first();
        lemma_insert_rec_multiset(df, r);
        vstd::seq_lib::lemma_multiset_commutative(seq![ss[0]], insert_rec(df, r));
        vstd::seq_lib::lemma_multiset_commutative(seq![ss[0]], df);
        assert(ss =~= seq![ss[0]] + df);
        assert(seq![ss[0]].to_multiset().add(df.to_multiset().insert(r)) =~= (seq![ss[0]]
            + df).to_multiset().insert(r));
    }
}

proof fn lemma_sort_recs_multiset(rs: Seq<ChildRec>)
    requires
        distinct_keys(rs),
    ensures
        sort_recs(rs).to_multiset() == rs.to_multiset(),
    decreases rs.len(),
{
    broadcast use vstd::seq_lib::group_to_multiset_ensures;

    if rs.len() > 0 {
        let dl = rs.drop_last();
        lemma_sort_recs_multiset(dl);
        lemma_sort_recs_elements(dl);
        assert forall|m: int| 0 <= m < sort_recs(dl).len() implies sort_recs(dl)[m].rel
            != rs.last().rel by {
            assert(dl.contains(sort_recs(dl)[m]));
            let i = choose|i: int| 0 <= i < dl.len() && dl[i] == sort_recs(dl)[m];
            assert(rs[i] == sort_recs(dl)[m]);
        }
        lemma_insert_rec_multiset(sort_recs(dl), rs.last());
        assert(rs =~= dl.push(rs.last()));
    }
}

proof fn lemma_sorted_unique_recs(x: Seq<ChildRec>, y: Seq<ChildRec>)
    requires
        strictly_sorted_recs(x),
        strictly_sorted_recs(y),
        x.to_multiset() == y.to_multiset(),
    ensures
        x =~= y,
    decreases x.len(),
{
    broadcast use vstd::seq_lib::group_to_multiset_ensures;
    broadcast use vstd::multiset::group_multiset_axioms;

    assert(x.len() == x.to_multiset().len());
    assert(y.len() == y.to_multiset().len());
    if x.len() == 0 {
        assert(y.len() == 0);
    } else {
        assert(y.len() == x.len());
        assert(x.contains(x[0]));
        assert(y.to_multiset().count(x[0]) > 0);
        assert(y.contains(x[0]));
        let j = choose|j: int| 0 <= j < y.len() && y[j] == x[0];
        assert(y.contains(y[0]));
        assert(x.to_multiset().count(y[0]) > 0);
        assert(x.contains(y[0]));
        let i = choose|i: int| 0 <= i < x.len() && x[i] == y[0];
        if i > 0 {
            assert(lex_le(x[0].rel, x[i].rel));
        } else {
            crate::path_text::lemma_lex_le_reflexive(x[0].rel);
        }
        if j > 0 {
            assert(lex_le(y[0].rel, y[j].rel));
        } else {
            crate::path_text::lemma_lex_le_reflexive(y[0].rel);
        }
        crate::path_text::lemma_lex_le_antisymmetric(x[0].rel, y[0].rel);
        assert(x[0].rel == y[0].rel);
        if j > 0 {
            assert(y[0].rel != y[j].rel);
            assert(false);
        }
        assert(y[0] == x[0]);
        assert(x.remove(0) =~= x.drop_first());
        assert(y.remove(0) =~= y.drop_first());
        assert(x.drop_first().to_multiset() == x.to_multiset().remove(x[0]));
        assert(y.drop_first().to_multiset() == y.to_multiset().remove(y[0]));
        lemma_sorted_unique_recs(x.drop_first(), y.drop_first());
        assert forall|k: int| 0 <= k < x.len() implies x[k] == y[k] by {
            if k > 0 {
                assert(x[k] == x.drop_first()[k - 1]);
                assert(y[k] == y.drop_first()[k - 1]);
            }
        }
        assert(x =~= y);
    }
}

/// Construction order does not matter: two listings of the same readable
/// entries — equal as a multiset, each without a repeated relative path —
/// sort to the identical child list, whatever order the filesystem
/// reported them in.
pub proof fn lemma_sort_recs_order_invariant(rs1: Seq<ChildRec>, rs2: Seq<ChildRec>)
    requires
        rs1.to_multiset() == rs2.to_multiset(),
        distinct_keys(rs1),
        distinct_keys(rs2),
    ensures
        sort_recs(rs1) == sort_recs(rs2),
{
    lemma_sort_recs_multiset(rs1);
    lemma_sort_recs_multiset(rs2);
    lemma_sort_recs_sorted(rs1);
    lemma_sort_recs_sorted(rs2);
    lemma_sorted_unique_recs(sort_recs(rs1), sort_recs(rs2));
}

/// A directory's combined digest depends on which entries it has, never
/// on the order in which they were produced: the resolved entries are
/// sorted by relative path before pairwise combination.
pub proof fn lemma_dir_hash_order_invariant(alg: Algorithm, rs1: Seq<ChildRec>, rs2: Seq<ChildRec>)
    requires
        rs1.to_multiset() == rs2.to_multiset(),
        distinct_keys(rs1),
        distinct_keys(rs2),
    ensures
        combine_all(alg, rec_hashes(sort_recs(rs1))) == combine_all(
            alg,
            rec_hashes(sort_recs(rs2)),
        ),
{
    lemma_sort_recs_order_invariant(rs1, rs2);
}

proof fn lemma_entries_outcome_ok_iff(
    root: Seq<char>,
    parent_abs: Seq<char>,
    hash_names: bool,
    alg: Algorithm,
    entries: Seq<FsChild>,
    i: int,
)
    requires
        0 <= i <= entries.len(),
    ensures
        entries_outcome(root, parent_abs, hash_names, alg, entries, i) is Ok <==> (forall|j: int|
            i <= j < entries.len() ==> entry_outcome(
                root,
                parent_abs,
                hash_names,
                alg,
                entries[j],
            ) is Ok),
    decreases entries.len() - i,
{
    if i < entries.len() {
        lemma_entries_outcome_ok_iff(root, parent_abs, hash_names, alg, entries, i + 1);
    }
}

proof fn lemma_prefix_recs_multiset(
    root: Seq<char>,
    parent_abs: Seq<char>,
    hash_names: bool,
    alg: Algorithm,
    es1: Seq<FsChild>,
    es2: Seq<FsChild>,
)
    requires
        es1.to_multiset() == es2.to_multiset(),
    ensures
        prefix_recs(root, parent_abs, hash_names, alg, es1, es1.len() as int).to_multiset()
            == prefix_recs(root, parent_abs, hash_names, alg, es2, es2.len() as int).to_multiset(),
    decreases es1.len(),
{
    broadcast use vstd::seq_lib::group_to_multiset_ensures;
    broadcast use vstd::multiset::group_multiset_axioms;

    let p1 = prefix_recs(root, parent_abs, hash_names, alg, es1, es1.len() as int);
    let p2 = prefix_recs(root, parent_abs, hash_names, alg, es2, es2.len() as int);
    assert(es1.len() == es1.to_multiset().len());
    assert(es2.len() == es2.to_multiset().len());
    if es1.len() == 0 {
        assert(p1 =~= Seq::<ChildRec>::empty());
        assert(p2 =~= Seq::<ChildRec>::empty());
    } else {
        let x = es1[0];
        let fx = entry_outcome(root, parent_abs, hash_names, alg, x)->Ok_0;
        assert(es1.contains(x));
        assert(es2.to_multiset().count(x) > 0);
        assert(es2.contains(x));
        let j = choose|j: int| 0 <= j < es2.len() && es2[j] == x;
        let es1t = es1.drop_first();
        let es2r = es2.remove(j);
        assert(es1.remove(0) =~= es1t);
        assert(es1t.to_multiset() == es1.to_multiset().remove(x));
        assert(es2r.to_multiset() == es2.to_multiset().remove(x));
        lemma_prefix_recs_multiset(root, parent_abs, hash_names, alg, es1t, es2r);
        let p1t = prefix_recs(root, parent_abs, hash_names, alg, es1t, es1t.len() as int);
        let p2r = prefix_recs(root, parent_abs, hash_names, alg, es2r, es2r.len() as int);
        es2.remove_ensures(j);
        assert(p1.remove(0) =~= p1t);
        assert(p2.remove(j) =~= p2r);
        assert(p1t.to_multiset() == p1.to_multiset().remove(p1[0]));
        assert(p2r.to_multiset() == p2.to_multiset().remove(p2[j]));
        assert(p1[0] == fx);
        assert(p2[j] == fx);
        assert(p1.contains(p1[0]));
        assert(p1.to_multiset().count(fx) > 0);
        assert(p2.contains(p2[j]));
        assert(p2.to_multiset().count(fx) > 0);
        assert(p1.to_multiset() =~= p1.to_multiset().remove(fx).insert(fx));
        assert(p2.to_multiset() =~= p2.to_multiset().remove(fx).insert(fx));
    }
}

/// Permuting the order in which a directory's entries were reported
/// never changes what is built from them: when every entry of one
/// listing resolves and neither listing maps two entries to the same
/// relative path, any reordering of that listing resolves as well and
/// sorts to the identical child list — so the directory's digest does
/// not depend on the on-disk enumeration order.
pub proof fn lemma_entry_order_never_changes_children(
    root: Seq<char>,
    parent_abs: Seq<char>,
    hash_names: bool,
    alg: Algorithm,
    es1: Seq<FsChild>,
    es2: Seq<FsChild>,
)
    requires
        es1.to_multiset() == es2.to_multiset(),
        entries_outcome(root, parent_abs, hash_names, alg, es1, 0) is Ok,
        distinct_keys(entries_outcome(root, parent_abs, hash_names, alg, es1, 0)->Ok_0),
        distinct_keys(entries_outcome(root, parent_abs, hash_names, alg, es2, 0)->Ok_0),
    ensures
        entries_outcome(root, parent_abs, hash_names, alg, es2, 0) is Ok,
        sort_recs(entries_outcome(root, parent_abs, hash_names, alg, es1, 0)->Ok_0) == sort_recs(
            entries_outcome(root, parent_abs, hash_names, alg, es2, 0)->Ok_0,
        ),
{
    broadcast use vstd::seq_lib::group_to_multiset_ensures;

    lemma_entries_outcome_ok_iff(root, parent_abs, hash_names, alg, es1, 0);
    assert forall|j: int| 0 <= j < es2.len() implies entry_outcome(
        root,
        parent_abs,
        hash_names,
        alg,
        es2[j],
    ) is Ok by {
        assert(es2.contains(es2[j]));
        assert(es1.to_multiset().count(es2[j]) > 0);
        assert(es1.contains(es2[j]));
        let i = choose|i: int| 0 <= i < es1.len() && es1[i] == es2[j];
        assert(entry_outcome(root, parent_abs, hash_names, alg, es1[i]) is Ok);
    }
    lemma_entries_outcome_ok_iff(root, parent_abs, hash_names, alg, es2, 0);
    lemma_entries_outcome_split(root, parent_abs, hash_names, alg, es1, es1.len() as int);
    lemma_entries_outcome_split(root, parent_abs, hash_names, alg, es2, es2.len() as int);
    let p1 = prefix_recs(root, parent_abs, hash_names, alg, es1, es1.len() as int);
    let p2 = prefix_recs(root, parent_abs, hash_names, alg, es2, es2.len() as int);
    assert(p1 + Seq::<ChildRec>::empty() =~= p1);
    assert(p2 + Seq::<ChildRec>::empty() =~= p2);
    lemma_prefix_recs_multiset(root, parent_abs, hash_names, alg, es1, es2);
    lemma_sort_recs_order_invariant(p1, p2);
}

/// Determinism: any two trees built from one snapshot, root and
/// configuration carry the same digest at the root; repeated builds —
/// whatever schedule produced them — yield byte-identical hashes.
pub proof fn lemma_index_deterministic(
    n1: MerkleNode,
    n2: MerkleNode,
    root: Seq<char>,
    rel: Seq<char>,
    abs: Seq<char>,
    hash_names: bool,
    alg: Algorithm,
    fs: FsTree,
)
    requires
        node_matches(n1, root, rel, abs, hash_names, alg, fs),
        node_matches(n2, root, rel, abs, hash_names, alg, fs),
    ensures
        n1.item.hash@ == n2.item.hash@,
{
}

/// In every tree that indexing builds, a node's children stand in
/// strictly ascending order of relative path: siblings are traversed
/// sorted, and no two share a path.
pub proof fn lemma_children_sorted(
    n: MerkleNode,
    root: Seq<char>,
    rel: Seq<char>,
    abs: Seq<char>,
    hash_names: bool,
    alg: Algorithm,
    fs: FsTree,
)
    requires
        node_matches(n, root, rel, abs, hash_names, alg, fs),
    ensures
        forall|i: int, j: int|
            0 <= i < j < n.children@.len() ==> lex_le(
                #[trigger] n.children@[i].item.path.relative@,
                #[trigger] n.children@[j].item.path.relative@,
            ) && n.children@[i].item.path.relative@ != n.children@[j].item.path.relative@,
{
    match fs {
        FsTree::Dir { entries } => {
            let recs = entries_outcome(root, abs, hash_names, alg, entries@, 0)->Ok_0;
            let sorted = sort_recs(recs);
            lemma_sort_recs_sorted(recs);
            assert forall|i: int, j: int| 0 <= i < j < n.children@.len() implies lex_le(
                #[trigger] n.children@[i].item.path.relative@,
                #[trigger] n.children@[j].item.path.relative@,
            ) && n.children@[i].item.path.relative@ != n.children@[j].item.path.relative@ by {
                assert(n.children@.len() == sorted.len());
                assert(node_matches(
                    n.children@[i],
                    root,
                    sorted[i].rel,
                    sorted[i].abs,
                    hash_names,
                    alg,
                    sorted[i].tree,
                ));
                assert(node_matches(
                    n.children@[j],
                    root,
                    sorted[j].rel,
                    sorted[j].abs,
                    hash_names,
                    alg,
                    sorted[j].tree,
                ));
                assert(n.children@[i].item.path.relative@ == sorted[i].rel);
                assert(n.children@[j].item.path.relative@ == sorted[j].rel);
                assert(lex_le(sorted[i].rel, sorted[j].rel) && sorted[i].rel != sorted[j].rel);
            }
        },
        _ => {},
    }
}

/// Whether a snapshot records a failed file read anywhere in it.
pub open spec fn has_unreadable_file(fs: FsTree) -> bool
    decreases fs, 0int,
{
    match fs {
        FsTree::FileUnreadable { .. } => true,
        FsTree::Dir { entries } => has_unreadable_file_in(entries@, 0),
        _ => false,
    }
}

/// Whether any entry from position `i` on holds a failed file read.
pub open spec fn has_unreadable_file_in(es: Seq<FsChild>, i: int) -> bool
    decreases es, es.len() - i,
{
    if i < 0 || i >= es.len() {
        false
    } else {
        (match es[i] {
            FsChild::Entry { tree, .. } => has_unreadable_file(tree),
            _ => false,
        }) || has_unreadable_file_in(es, i + 1)
    }
}

proof fn lemma_unreadable_entry_exists(es: Seq<FsChild>, i: int)
    requires
        has_unreadable_file_in(es, i),
    ensures
        exists|k: int|
            i <= k < es.len() && ((#[trigger] es[k]) matches FsChild::Entry { tree, .. }
                && has_unreadable_file(tree)),
    decreases es.len() - i,
{
    if i < es.len() {
        match es[i] {
            FsChild::Entry { tree, .. } => {
                if has_unreadable_file(tree) {
                    assert(i <= i < es.len() && (es[i] matches FsChild::Entry { tree, .. }
                        && has_unreadable_file(tree)));
                } else {
                    lemma_unreadable_entry_exists(es, i + 1);
                }
            },
            _ => {
                lemma_unreadable_entry_exists(es, i + 1);
            },
        }
    }
}

/// Fail-fast: a snapshot that records a failed file read anywhere under
/// a node never yields a digest — indexing it fails, whatever root,
/// path, name setting and algorithm are in force, and no partial result
/// is produced.
pub proof fn lemma_unreadable_file_fails(
    root: Seq<char>,
    abs: Seq<char>,
    hash_names: bool,
    alg: Algorithm,
    fs: FsTree,
)
    requires
        has_unreadable_file(fs),
    ensures
        node_outcome(root, abs, hash_names, alg, fs) is Err,
    decreases fs,
{
    match fs {
        FsTree::Dir { entries } => {
            lemma_unreadable_entry_exists(entries@, 0);
            let k = choose|k: int|
                0 <= k < entries@.len() && ((#[trigger] entries@[k]) matches FsChild::Entry {
                    tree,
                    ..
                } && has_unreadable_file(entries@[k]->Entry_tree));
            let tree = entries@[k]->Entry_tree;
            if entries_outcome(root, abs, hash_names, alg, entries@, 0) is Ok {
                lemma_entries_outcome_ok_iff(root, abs, hash_names, alg, entries@, 0);
                assert(entry_outcome(root, abs, hash_names, alg, entries@[k]) is Ok);
                match entries@[k]->Entry_path {
                    FsEntryPath::Text { path: eabs } => {
                        lemma_unreadable_file_fails(root, eabs@, hash_names, alg, tree);
                        assert(false);
                    },
                    FsEntryPath::NotText { .. } => {
                        assert(false);
                    },
                }
            }
        },
        _ => {},
    }
}

/// An empty file's contents digest is the digest of the empty byte
/// sequence: the file's raw bytes, of length zero, are digested
/// directly.
pub proof fn lemma_empty_file_contents_hash(
    root: Seq<char>,
    abs: Seq<char>,
    hash_names: bool,
    alg: Algorithm,
    fs: FsTree,
)
    requires
        fs matches FsTree::File { content } && content@.len() == 0,
    ensures
        contents_outcome(root, abs, hash_names, alg, fs) == Ok::<Seq<u8>, ErrorModel>(
            hash_of(alg, Seq::<u8>::empty()),
        ),
{
    assert(fs->File_content@ =~= Seq::<u8>::empty());
}

/// An empty directory's contents digest is likewise the digest of the
/// empty byte sequence, reached through the combiner's empty-input
/// substitution rather than through file bytes.
pub proof fn lemma_empty_dir_contents_hash(
    root: Seq<char>,
    abs: Seq<char>,
    hash_names: bool,
    alg: Algorithm,
    fs: FsTree,
)
    requires
        fs matches FsTree::Dir { entries } && entries@.len() == 0,
    ensures
        contents_outcome(root, abs, hash_names, alg, fs) == Ok::<Seq<u8>, ErrorModel>(
            hash_of(alg, Seq::<u8>::empty()),
        ),
{
    let entries = fs->Dir_entries;
    assert(entries_outcome(root, abs, hash_names, alg, entries@, 0) == Ok::<
        Seq<ChildRec>,
        ErrorModel,
    >(Seq::empty()));
    assert(rec_hashes(sort_recs(Seq::<ChildRec>::empty())) =~= Seq::<Seq<u8>>::empty());
}

/// Single-child identity: a directory whose entries resolve to exactly
/// one child has a contents digest equal to that child's digest
/// directly, with no further hashing.
pub proof fn lemma_single_child_contents_hash(
    root: Seq<char>,
    abs: Seq<char>,
    hash_names: bool,
    alg: Algorithm,
    fs: FsTree,
)
    requires
        fs matches FsTree::Dir { entries },
        entries_outcome(root, abs, hash_names, alg, fs->Dir_entries@, 0) is Ok,
        sort_recs(entries_outcome(root, abs, hash_names, alg, fs->Dir_entries@, 0)->Ok_0).len()
            == 1,
    ensures
        contents_outcome(root, abs, hash_names, alg, fs) == Ok::<Seq<u8>, ErrorModel>(
            sort_recs(
                entries_outcome(root, abs, hash_names, alg, fs->Dir_entries@, 0)->Ok_0,
            )[0].hash,
        ),
{
    let sorted = sort_recs(entries_outcome(root, abs, hash_names, alg, fs->Dir_entries@, 0)->Ok_0);
    assert(rec_hashes(sorted) =~= seq![sorted[0].hash]);
    crate::algorithm::lemma_combine_all_single(alg, sorted[0].hash);
}

/// A directory containing zero entries hashes, when names are not
/// hashed, to exactly the digest of the empty byte sequence.
pub proof fn lemma_empty_dir_hash(root: Seq<char>, abs: Seq<char>, alg: Algorithm, fs: FsTree)
    requires
        fs matches FsTree::Dir { entries } && entries@.len() == 0,
    ensures
        node_outcome(root, abs, false, alg, fs) == Ok::<Seq<u8>, ErrorModel>(
            hash_of(alg, Seq::<u8>::empty()),
        ),
{
    lemma_empty_dir_contents_hash(root, abs, false, alg, fs);
}

} // verus!
