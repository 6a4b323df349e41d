use merkle_hash::error::IndexingError;
use merkle_hash::Algorithm;
use merkle_hash::FsChild;
use merkle_hash::FsEntryPath;
use merkle_hash::FsTree;
use merkle_hash::MerkleTree;

fn file(bytes: &[u8]) -> FsTree {
    FsTree::File { content: bytes.to_vec() }
}

fn entry(abs: &str, tree: FsTree) -> FsChild {
    FsChild::Entry { path: FsEntryPath::Text { path: abs.to_string() }, tree }
}

fn dir(entries: Vec<FsChild>) -> FsTree {
    FsTree::Dir { entries }
}

fn build(root: &str, names: bool, fs: &FsTree) -> Result<MerkleTree, IndexingError> {
    MerkleTree::builder(root).hash_names(names).algorithm(Algorithm::Blake3).build(fs)
}

fn sample_tree() -> FsTree {
    dir(vec![
        entry("/r/d", file(b"dee")),
        entry(
            "/r/a",
            dir(vec![entry("/r/a/c", file(b"cee")), entry("/r/a/b", file(b"bee"))]),
        ),
    ])
}

#[test]
fn repeated_builds_are_identical() {
    let fs = sample_tree();
    for names in [false, true] {
        let t1 = build("/r", names, &fs).unwrap();
        let t2 = build("/r", names, &fs).unwrap();
        assert_eq!(t1.root.item.hash, t2.root.item.hash);
        let mut i1 = t1.iter();
        let mut i2 = t2.iter();
        loop {
            match (i1.next(), i2.next()) {
                (None, None) => break,
                (Some(a), Some(b)) => {
                    assert_eq!(a.path.relative, b.path.relative);
                    assert_eq!(a.hash, b.hash);
                },
                _ => panic!("iterators disagree on length"),
            }
        }
    }
}

#[test]
fn sibling_order_never_changes_the_hash() {
    let one = dir(vec![entry("/r/a", file(b"x")), entry("/r/b", file(b"y"))]);
    let two = dir(vec![entry("/r/b", file(b"y")), entry("/r/a", file(b"x"))]);
    for names in [false, true] {
        let t1 = build("/r", names, &one).unwrap();
        let t2 = build("/r", names, &two).unwrap();
        assert_eq!(t1.root.item.hash, t2.root.item.hash);
    }
}

#[test]
fn renaming_changes_the_hash_only_when_names_are_hashed() {
    let one = dir(vec![entry("/r/a", file(b"x"))]);
    let two = dir(vec![entry("/r/b", file(b"x"))]);
    let named1 = build("/r", true, &one).unwrap();
    let named2 = build("/r", true, &two).unwrap();
    assert_ne!(named1.root.item.hash, named2.root.item.hash);
    let plain1 = build("/r", false, &one).unwrap();
    let plain2 = build("/r", false, &two).unwrap();
    assert_eq!(plain1.root.item.hash, plain2.root.item.hash);
}

#[test]
fn empty_directory_hashes_like_empty_bytes() {
    let t = build("/r", false, &dir(vec![])).unwrap();
    assert_eq!(t.root.item.hash, blake3::hash(b"").as_bytes().to_vec());
}

#[test]
fn single_child_contents_identity() {
    let fs = dir(vec![entry("/r/only", file(b"data"))]);
    let t = build("/r", false, &fs).unwrap();
    assert_eq!(t.root.children.len(), 1);
    let child_hash = t.root.children[0].item.hash.clone();
    assert_eq!(child_hash, blake3::hash(b"data").as_bytes().to_vec());
    assert_eq!(t.root.item.hash, child_hash);
}

#[test]
fn empty_file_and_empty_dir_both_hash_empty_bytes() {
    let empty_digest = blake3::hash(b"").as_bytes().to_vec();
    let from_file = build("/r", false, &file(b"")).unwrap();
    assert_eq!(from_file.root.item.hash, empty_digest);
    let from_dir = build("/r", false, &dir(vec![])).unwrap();
    assert_eq!(from_dir.root.item.hash, empty_digest);
}

#[test]
fn name_toggle_changes_the_hash() {
    let fs = dir(vec![entry("/r/a", file(b"x"))]);
    let plain = build("/r", false, &fs).unwrap();
    let named = build("/r", true, &fs).unwrap();
    assert_ne!(plain.root.item.hash, named.root.item.hash);
}

#[test]
fn traversal_yields_sorted_preorder() {
    let t = build("/r", false, &sample_tree()).unwrap();
    let mut seen: Vec<String> = Vec::new();
    let mut it = t.iter();
    while let Some(item) = it.next() {
        seen.push(item.path.relative.clone());
    }
    assert_eq!(seen, vec!["", "a", "a/b", "a/c", "d"]);
}

#[test]
fn owning_traversal_matches_borrowing_traversal() {
    let fs = sample_tree();
    let t1 = build("/r", false, &fs).unwrap();
    let t2 = build("/r", false, &fs).unwrap();
    let mut borrowed: Vec<(String, Vec<u8>)> = Vec::new();
    let mut it = t1.iter();
    while let Some(item) = it.next() {
        borrowed.push((item.path.relative.clone(), item.hash.clone()));
    }
    let mut owned: Vec<(String, Vec<u8>)> = Vec::new();
    let mut into_it = t2.into_iter();
    while let Some(item) = into_it.next() {
        owned.push((item.path.relative, item.hash));
    }
    assert_eq!(borrowed, owned);
}

#[test]
fn exhausted_iterators_keep_yielding_nothing() {
    let fs = sample_tree();
    let t = build("/r", false, &fs).unwrap();
    let mut it = t.iter();
    while it.next().is_some() {}
    assert!(it.next().is_none());
    assert!(it.next().is_none());
    assert!(it.next().is_none());
    let mut into_it = build("/r", false, &fs).unwrap().into_iter();
    while into_it.next().is_some() {}
    assert!(into_it.next().is_none());
    assert!(into_it.next().is_none());
}

#[test]
fn unreadable_file_fails_the_whole_build() {
    let fs = dir(vec![
        entry("/r/good", file(b"fine")),
        entry("/r/bad", FsTree::FileUnreadable { cause: "permission denied".to_string() }),
    ]);
    match build("/r", false, &fs) {
        Err(IndexingError::UnableToReadFile { path, cause }) => {
            assert_eq!(path, "/r/bad");
            assert_eq!(cause, "permission denied");
        },
        _ => panic!("expected UnableToReadFile"),
    }
}

#[test]
fn unreadable_directory_fails_the_build() {
    let fs = dir(vec![entry(
        "/r/sub",
        FsTree::DirUnreadable { cause: "not permitted".to_string() },
    )]);
    match build("/r", false, &fs) {
        Err(IndexingError::UnableToReadDir { path, cause }) => {
            assert_eq!(path, "/r/sub");
            assert_eq!(cause, "not permitted");
        },
        _ => panic!("expected UnableToReadDir"),
    }
}

#[test]
fn unreadable_entry_names_the_enclosing_directory() {
    let fs = dir(vec![FsChild::Unreadable { cause: "stale handle".to_string() }]);
    match build("/r", false, &fs) {
        Err(IndexingError::UnableToReadDirEntry { path, cause }) => {
            assert_eq!(path, "/r");
            assert_eq!(cause, "stale handle");
        },
        _ => panic!("expected UnableToReadDirEntry"),
    }
}

#[test]
fn non_text_path_fails_the_build() {
    let fs = dir(vec![FsChild::Entry {
        path: FsEntryPath::NotText { lossy: "/r/b\u{fffd}d".to_string() },
        tree: file(b"x"),
    }]);
    match build("/r", false, &fs) {
        Err(IndexingError::PathIsNotValidUtf8 { path }) => {
            assert_eq!(path, "/r/b\u{fffd}d");
        },
        _ => panic!("expected PathIsNotValidUtf8"),
    }
}

#[test]
fn entry_outside_the_root_fails_the_build() {
    let fs = dir(vec![entry("/elsewhere/x", file(b"x"))]);
    match build("/r", false, &fs) {
        Err(IndexingError::UnableToStripRootPrefix { path, root, .. }) => {
            assert_eq!(path, "/elsewhere/x");
            assert_eq!(root, "/r");
        },
        _ => panic!("expected UnableToStripRootPrefix"),
    }
}

#[test]
fn missing_root_name_fails_only_when_names_are_hashed() {
    let fs = dir(vec![]);
    assert!(build("/", false, &fs).is_ok());
    match build("/", true, &fs) {
        Err(IndexingError::UnableToReadFileName { path }) => {
            assert_eq!(path, "/");
        },
        _ => panic!("expected UnableToReadFileName"),
    }
}

#[test]
fn duplicate_relative_paths_collapse_to_the_first() {
    let fs = dir(vec![
        entry("/r/a", file(b"first")),
        entry("/r/a", file(b"second")),
    ]);
    let t = build("/r", false, &fs).unwrap();
    assert_eq!(t.root.children.len(), 1);
    assert_eq!(
        t.root.children[0].item.hash,
        blake3::hash(b"first").as_bytes().to_vec()
    );
}

#[test]
fn children_paths_mirror_the_children() {
    let t = build("/r", false, &sample_tree()).unwrap();
    let rels: Vec<String> = t
        .root
        .item
        .children_paths
        .iter()
        .map(|p| p.relative.clone())
        .collect();
    assert_eq!(rels, vec!["a", "d"]);
    assert_eq!(t.root.item.children_paths[0].absolute, "/r/a");
}

#[test]
fn root_with_trailing_slash_still_strips() {
    let fs = dir(vec![entry("/r/a", file(b"x"))]);
    let t = build("/r/", false, &fs).unwrap();
    assert_eq!(t.root.children[0].item.path.relative, "a");
}

#[test]
fn named_hash_mixes_name_and_contents() {
    let fs = file(b"data");
    let t = build("/r/leaf", true, &fs).unwrap();
    let contents = blake3::hash(b"data");
    let mut hasher = blake3::Hasher::new();
    hasher.update(b"leaf");
    hasher.update(contents.as_bytes());
    assert_eq!(t.root.item.hash, hasher.finalize().as_bytes().to_vec());
}

#[test]
fn sha256_tree_hashes_with_sha256() {
    let fs = file(b"data");
    let t = MerkleTree::builder("/r")
        .algorithm(Algorithm::Sha256)
        .build(&fs)
        .unwrap();
    let mut h = <sha2::Sha256 as sha2::Digest>::new();
    sha2::Digest::update(&mut h, b"data");
    assert_eq!(t.root.item.hash, sha2::Digest::finalize(h).to_vec());
}

#[test]
fn sha512_tree_hashes_with_sha512() {
    let fs = dir(vec![]);
    let t = MerkleTree::builder("/r")
        .algorithm(Algorithm::Sha512)
        .build(&fs)
        .unwrap();
    let mut h = <sha2::Sha512 as sha2::Digest>::new();
    sha2::Digest::update(&mut h, b"");
    assert_eq!(t.root.item.hash, sha2::Digest::finalize(h).to_vec());
    assert_eq!(t.root.item.hash.len(), 64);
}
