use std::collections::{BTreeMap, BTreeSet};
use vyotiq_backend::collections::StringMap;
use vyotiq_backend::embedder::{EmbedFile, EmbeddingManager, FileVectorStep, StoredVectors, VectorStep};
use vyotiq_backend::hashes::compute_content_hash;
use vyotiq_backend::indexer::{prepare_file_document, IndexManager, RebuildStep, ReindexAction, WalkEntry};
use vyotiq_backend::watcher::{EventKind, FileWatcherManager};

/// A tree of files on disk: path to content.
type Disk = BTreeMap<String, String>;

/// The lexical index as the caller keeps it: path to the hash of the document.
type Index = BTreeMap<String, String>;

fn walk(disk: &Disk) -> Vec<WalkEntry> {
    disk.iter()
        .map(|(path, content)| WalkEntry {
            path: path.clone(),
            relative_path: path.trim_start_matches("/w/").to_string(),
            is_file: true,
            size: content.len() as u64,
        })
        .collect()
}

/// Does what the caller does for a full rebuild. Returns the number of events.
fn rebuild(m: &mut IndexManager, index: &mut Index, disk: &Disk) -> usize {
    assert!(m.begin_rebuild("ws"));
    // every file of the disk is read, also those that the filter leaves out
    let mut hashes = StringMap::new();
    for (path, content) in disk.iter() {
        hashes.insert(path.clone(), compute_content_hash(content));
    }
    match m.index_workspace("ws", &walk(disk), &hashes, 0) {
        RebuildStep::NotBegun => panic!("the rebuild was begun"),
        RebuildStep::UpToDate => 0,
        RebuildStep::Work(plan) => {
            let mut events = 1;
            for path in &plan.delete_paths {
                index.remove(path);
            }
            for path in &plan.changes.to_index {
                let doc = prepare_file_document(path, "/w", disk[path].clone(), 0, 0);
                index.insert(doc.path.clone(), doc.content_hash.clone());
                if m.record_indexed("ws", plan.changes.to_index.len()).is_some() {
                    events += 1;
                }
            }
            m.finish_rebuild("ws", plan, 0);
            events + 1
        }
    }
}

fn catalog(m: &mut IndexManager) -> BTreeMap<String, String> {
    let hashes = m.read_existing_hashes("ws");
    (0..hashes.len()).map(|i| (hashes.key_at(i).clone(), hashes.value_at(i).clone())).collect()
}

fn disk(files: &[(&str, &str)]) -> Disk {
    files.iter().map(|(p, c)| (p.to_string(), c.to_string())).collect()
}

#[test]
fn every_document_has_its_hash_in_the_catalog() {
    let mut m = IndexManager::new("/d".to_string(), 1024, 50, 1000, Vec::new());
    let mut index = Index::new();
    let steps = [
        disk(&[("/w/a.rs", "fn foo(){}"), ("/w/b.rs", "fn bar(){}")]),
        disk(&[("/w/a.rs", "fn baz(){}"), ("/w/b.rs", "fn bar(){}"), ("/w/c.md", "# c")]),
        disk(&[("/w/c.md", "# c"), ("/w/d.py", "def d(): pass")]),
        disk(&[]),
        disk(&[("/w/a.rs", "fn foo(){}")]),
    ];
    for files in &steps {
        rebuild(&mut m, &mut index, files);
        let recorded = catalog(&mut m);
        for (path, hash) in &index {
            assert_eq!(recorded.get(path), Some(hash));
            assert_eq!(*hash, compute_content_hash(&files[path]));
        }
        assert_eq!(index, recorded);
    }
}

#[test]
fn indexed_paths_are_the_files_that_pass_the_filter() {
    let mut m = IndexManager::new("/d".to_string(), 16, 50, 1000, vec!["*.tmp".to_string()]);
    let mut index = Index::new();
    let steps = [
        disk(&[("/w/a.rs", "fn a(){}"), ("/w/big.rs", "this file is larger than sixteen bytes"), ("/w/x.bin", "bin")]),
        disk(&[("/w/a.rs", "fn a(){}"), ("/w/empty.rs", ""), ("/w/node_modules/m.js", "m"), ("/w/k.tmp", "k"), ("/w/b.py", "b")]),
        disk(&[("/w/b.py", "changed"), ("/w/Makefile", "all:")]),
    ];
    for files in &steps {
        rebuild(&mut m, &mut index, files);
        let passing: BTreeSet<String> =
            walk(files).iter().filter(|e| m.accepts(e)).map(|e| e.path.clone()).collect();
        let indexed: BTreeSet<String> = index.keys().cloned().collect();
        assert_eq!(indexed, passing);
    }
    let last: Vec<&String> = index.keys().collect();
    assert_eq!(last, vec!["/w/Makefile", "/w/b.py"]);
}

#[test]
fn a_rerun_without_changes_writes_nothing_and_tells_nothing() {
    let mut m = IndexManager::new("/d".to_string(), 1024, 1, 1000, Vec::new());
    let mut index = Index::new();
    let files = disk(&[("/w/a.rs", "fn a(){}"), ("/w/b.rs", "fn b(){}")]);
    // started, two progress events, completed
    assert_eq!(rebuild(&mut m, &mut index, &files), 4);
    let before = index.clone();
    for _ in 0..3 {
        assert_eq!(rebuild(&mut m, &mut index, &files), 0);
        assert_eq!(index, before);
        assert!(m.get_index_status("ws", false).indexed);
    }
}

#[test]
fn index_ids_and_chunks_stay_together() {
    let mut m = EmbeddingManager::new("/d".to_string());
    m.get_or_create_workspace("ws", StoredVectors::Missing, None, 0);
    // the ids of the vectors that the caller holds in its index
    let mut ids: BTreeSet<u64> = BTreeSet::new();
    let mut assigned: Vec<u64> = Vec::new();
    let file = |p: &str, c: &str| EmbedFile {
        abs_path: p.to_string(),
        relative_path: p.to_string(),
        content: c.to_string(),
        language: "rust".to_string(),
    };
    let rounds = [
        vec![file("/w/a.rs", "a1"), file("/w/b.rs", "b1"), file("/w/c.rs", "c1")],
        vec![file("/w/a.rs", "a2"), file("/w/c.rs", "c1")],
        vec![file("/w/d.rs", "d1")],
        vec![],
    ];
    for files in &rounds {
        assert!(m.begin_vector_rebuild("ws"));
        match m.index_workspace_vectors("ws", files, 65536) {
            VectorStep::Work(plan) => {
                for k in &plan.removed_keys {
                    assert!(ids.remove(k));
                }
                for chunk in plan.chunks {
                    let key = m.allocate_key("ws").unwrap();
                    // every second vector cannot be added: its id is used up all the same
                    assigned.push(key);
                    if key % 2 == 0 {
                        ids.insert(key);
                        assert!(m.commit_vector("ws", key, chunk));
                    }
                }
                m.finish_vector_rebuild("ws", plan.hashes);
            }
            VectorStep::UpToDate(_) => {}
            VectorStep::NotBegun => panic!("the rebuild was begun"),
        }
        let held: BTreeSet<u64> = m.workspaces.get("ws").unwrap().keys.iter().copied().collect();
        assert_eq!(held, ids);
    }
    if let FileVectorStep::Work { removed_keys, chunks } =
        m.reindex_file_vectors("ws", "/w/e.rs", "e.rs", "e1", "rust", "create")
    {
        for k in &removed_keys {
            assert!(ids.remove(k));
        }
        for chunk in chunks {
            let key = m.allocate_key("ws").unwrap();
            assigned.push(key);
            ids.insert(key);
            assert!(m.commit_vector("ws", key, chunk));
        }
    }
    let held: BTreeSet<u64> = m.workspaces.get("ws").unwrap().keys.iter().copied().collect();
    assert_eq!(held, ids);
    // ids were handed out in strictly increasing order
    assert!(assigned.windows(2).all(|w| w[0] < w[1]));
    assert_eq!(assigned, (0..assigned.len() as u64).collect::<Vec<_>>());
}

#[test]
fn a_written_file_is_found_again() {
    // A file is written; the watcher passes the change on; the file is indexed anew.
    let mut watch = FileWatcherManager::new(500);
    let mut m = IndexManager::new("/d".to_string(), 1024, 50, 1000, Vec::new());
    let mut index = Index::new();
    let mut files = disk(&[("/w/a.rs", "fn foo(){}")]);
    watch.start_watching("ws", "/w");
    rebuild(&mut m, &mut index, &files);

    files.insert("/w/a.rs".to_string(), "fn unique_marker(){}".to_string());
    let passed = watch.on_events("ws", &vec![(EventKind::Modify, "/w/a.rs".to_string())], 10_000);
    assert_eq!(passed.len(), 1);
    for change in &passed {
        let size = files.get("/w/a.rs").map(|c| c.len() as u64);
        match m.reindex_file("ws", &change.relative_path, "/w", &change.change_type, size) {
            ReindexAction::Replace { path } => {
                index.remove(&path);
                let doc = prepare_file_document(&path, "/w", files[&path].clone(), 0, 0);
                assert!(doc.content.contains("unique_marker"));
                assert_eq!(doc.symbols, "unique_marker");
                index.insert(path.clone(), doc.content_hash.clone());
                m.record_document("ws", &path, doc.content_hash);
            }
            _ => panic!("the file was to be indexed anew"),
        }
    }
    assert_eq!(index.get("/w/a.rs"), Some(&compute_content_hash("fn unique_marker(){}")));
    assert_eq!(catalog(&mut m), index);
    // nothing is left to do for a rebuild
    assert_eq!(rebuild(&mut m, &mut index, &files), 0);
}
