use vyotiq_backend::collections::StringMap;
use vyotiq_backend::error::AppError;
use vyotiq_backend::hashes::compute_content_hash;
use vyotiq_backend::indexer::{
    is_excluded_by_user, is_indexable, is_special_file_name, prepare_file_document,
    FieldKind, IndexManager, IndexSchema, IndexStatusResponse, RebuildStep, ReindexAction,
    WalkEntry, MAX_WALK_DEPTH, REBUILD_WRITER_BUFFER, UPDATE_WRITER_BUFFER,
};
use vyotiq_backend::paths::join_path;
use vyotiq_backend::state::ServerEvent;

fn manager() -> IndexManager {
    IndexManager::new("/data/indexes".to_string(), 1024, 2, 50_000, vec!["*.secret".to_string()])
}

fn scan(files: &[(&str, &str)]) -> StringMap<String> {
    let mut m = StringMap::new();
    for (path, content) in files {
        m.insert(path.to_string(), compute_content_hash(content));
    }
    m
}

/// What a walk finds of these files.
fn walked(files: &[(&str, &str)]) -> Vec<WalkEntry> {
    files
        .iter()
        .map(|(path, content)| WalkEntry {
            path: path.to_string(),
            relative_path: path.trim_start_matches("/w/").to_string(),
            is_file: true,
            size: content.len() as u64,
        })
        .collect()
}

/// The step of a rebuild for these files, all of them read.
fn step(m: &mut IndexManager, files: &[(&str, &str)], total_size: u64) -> RebuildStep {
    m.index_workspace("ws", &walked(files), &scan(files), total_size)
}

fn entry(path: &str, relative: &str, size: u64) -> WalkEntry {
    WalkEntry { path: path.to_string(), relative_path: relative.to_string(), is_file: true, size }
}

fn plan_of(step: RebuildStep) -> vyotiq_backend::indexer::RebuildPlan {
    match step {
        RebuildStep::Work(plan) => plan,
        _ => panic!("a plan was expected"),
    }
}

#[test]
fn schema_has_the_ten_fields() {
    let schema = IndexSchema::build();
    let names: Vec<&str> = schema.schema().iter().map(|f| f.0).collect();
    assert_eq!(
        names,
        vec![
            "path", "relative_path", "filename", "extension", "content", "language", "size",
            "modified", "content_hash", "symbols"
        ]
    );
    assert!(schema.schema()[schema.path].1 == FieldKind::Keyword);
    assert!(schema.schema()[schema.content].1 == FieldKind::FullText);
    assert!(schema.schema()[schema.filename].1 == FieldKind::FullText);
    assert!(schema.schema()[schema.symbols].1 == FieldKind::FullText);
    assert!(schema.schema()[schema.size].1 == FieldKind::Number);
    assert!(schema.schema()[schema.modified].1 == FieldKind::Number);
    assert!(schema.schema()[schema.content_hash].1 == FieldKind::Keyword);
    assert_eq!(schema.schema()[schema.language].0, "language");
    assert_eq!(schema.schema()[schema.extension].0, "extension");
    assert_eq!(schema.schema()[schema.relative_path].0, "relative_path");
    assert_eq!(MAX_WALK_DEPTH, 20);
    assert_eq!(REBUILD_WRITER_BUFFER, 50 * 1024 * 1024);
    assert_eq!(UPDATE_WRITER_BUFFER, 10 * 1024 * 1024);
}

#[test]
fn indexable_by_extension_or_special_name() {
    assert!(is_indexable("/w/src/main.rs"));
    assert!(is_indexable("/w/src/MAIN.RS"));
    assert!(is_indexable("/w/Dockerfile"));
    assert!(is_indexable("/w/Makefile"));
    assert!(is_indexable("/w/.gitignore"));
    assert!(is_indexable("/w/README"));
    assert!(is_indexable("/w/Cargo.toml"));
    assert!(is_indexable("/w/CMakeLists.txt"));
    assert!(!is_indexable("/w/binary.exe"));
    assert!(!is_indexable("/w/noextension"));
    assert!(!is_indexable("/w/archive.tar.gz"));
    assert!(!is_indexable("/w/dir.rs/"));
    assert!(is_special_file_name("license"));
    assert!(!is_special_file_name("License"));
}

#[test]
fn build_and_output_directories_anywhere_in_the_path() {
    assert!(IndexManager::is_build_or_output_dir("/w/node_modules/x/index.js"));
    assert!(IndexManager::is_build_or_output_dir("/w/a/target/debug/x.rs"));
    assert!(IndexManager::is_build_or_output_dir("/w/pkg.egg-info/PKG-INFO"));
    assert!(IndexManager::is_build_or_output_dir("target"));
    assert!(IndexManager::is_build_or_output_dir("/w/src/build"));
    assert!(!IndexManager::is_build_or_output_dir("/w/src/main.rs"));
    assert!(!IndexManager::is_build_or_output_dir("/w/targets/x.rs"));
    assert!(!IndexManager::is_build_or_output_dir(""));
}

#[test]
fn the_filter_takes_all_five_conditions() {
    let m = manager();
    assert!(m.accepts(&entry("/w/src/main.rs", "src/main.rs", 10)));
    assert!(m.accepts(&entry("/w/src/main.rs", "src/main.rs", 1024)));
    // not a regular file
    let mut dir = entry("/w/src/main.rs", "src/main.rs", 10);
    dir.is_file = false;
    assert!(!m.accepts(&dir));
    // in an excluded directory
    assert!(!m.accepts(&entry("/w/dist/main.js", "dist/main.js", 10)));
    // not indexable by name
    assert!(!m.accepts(&entry("/w/src/main.bin", "src/main.bin", 10)));
    // empty
    assert!(!m.accepts(&entry("/w/src/main.rs", "src/main.rs", 0)));
    // excluded by the user
    assert!(!m.accepts(&entry("/w/src/key.secret", "src/key.secret", 10)));
    assert!(is_excluded_by_user("a/b.secret/c.rs", &vec!["*.secret".to_string()]));
    assert!(!is_excluded_by_user("a/b/c.rs", &vec!["*.secret".to_string()]));
}

#[test]
fn oversize_file_is_skipped() {
    // the cap is 1024 bytes
    let m = manager();
    assert!(!m.accepts(&entry("/w/big.rs", "big.rs", 2048)));
    assert!(!m.accepts(&entry("/w/big.rs", "big.rs", 1025)));
    assert!(m.accepts(&entry("/w/big.rs", "big.rs", 1024)));
    let mut m = manager();
    m.get_or_create_index("ws");
    let action = m.reindex_file("ws", "big.rs", "/w", "modify", Some(2048));
    assert!(matches!(action, ReindexAction::Delete { .. }));
    // a full rebuild leaves the file out, though it was read
    let big = "x".repeat(2048);
    let files = [("/w/big.rs", big.as_str()), ("/w/small.rs", "fn s(){}\n\n")];
    assert!(m.begin_rebuild("ws"));
    let plan = plan_of(step(&mut m, &files, 10));
    assert_eq!(plan.changes.to_index, vec!["/w/small.rs"]);
    assert_eq!(plan.delete_paths, vec!["/w/small.rs"]);
    assert_eq!(plan.total, 1);
    assert!(plan.hashes.get("/w/big.rs").is_none());
    m.finish_rebuild("ws", plan, 1);
    assert!(m.read_existing_hashes("ws").get("/w/big.rs").is_none());
    assert!(m.read_existing_hashes("ws").get("/w/small.rs").is_some());
    let status = m.get_index_status("ws", false);
    assert_eq!(status.total_count, 1);
    assert_eq!(status.indexed_count, 1);
}

#[test]
fn join_path_puts_one_separator() {
    assert_eq!(join_path("/w", "src/a.rs"), "/w/src/a.rs");
    assert_eq!(join_path("/w/", "src/a.rs"), "/w/src/a.rs");
    assert_eq!(join_path("/w", "/abs/a.rs"), "/abs/a.rs");
    assert_eq!(join_path("", "a.rs"), "a.rs");
    assert_eq!(join_path("/w", ""), "/w/");
    assert_eq!(manager().index_dir("ws-1"), "/data/indexes/ws-1");
}

#[test]
fn document_of_a_file() {
    let doc = prepare_file_document(
        "/w/src/Main.RS",
        "/w",
        "pub fn start() {}\nstruct App;\n".to_string(),
        29,
        1_700_000_000,
    );
    assert_eq!(doc.path, "/w/src/Main.RS");
    assert_eq!(doc.relative_path, "src/Main.RS");
    assert_eq!(doc.filename, "Main.RS");
    assert_eq!(doc.extension, "rs");
    assert_eq!(doc.language, "rust");
    assert_eq!(doc.content, "pub fn start() {}\nstruct App;\n");
    assert_eq!(doc.size, 29);
    assert_eq!(doc.modified, 1_700_000_000);
    assert_eq!(doc.content_hash, compute_content_hash("pub fn start() {}\nstruct App;\n"));
    assert_eq!(doc.symbols, "start App");
}

#[test]
fn document_of_a_file_outside_the_workspace_keeps_its_path() {
    let doc = prepare_file_document("/other/notes.txt", "/w", "hello".to_string(), 5, 0);
    assert_eq!(doc.relative_path, "/other/notes.txt");
    assert_eq!(doc.language, "plaintext");
    assert_eq!(doc.symbols, "");
    let doc = prepare_file_document("/w/Makefile", "/w/", String::new(), 0, 0);
    assert_eq!(doc.relative_path, "Makefile");
    assert_eq!(doc.extension, "");
    assert_eq!(doc.language, "plaintext");
}

#[test]
fn a_rebuild_has_to_be_begun() {
    let mut m = manager();
    assert!(matches!(
        step(&mut m, &[("/w/a.rs", "fn foo(){}")], 10),
        RebuildStep::NotBegun
    ));
    assert!(!m.get_index_status("ws", false).is_indexing);
}

#[test]
fn full_rebuild_exclusivity() {
    let mut m = manager();
    assert!(m.begin_rebuild("ws"));
    assert!(!m.begin_rebuild("ws"));
    assert!(m.get_index_status("ws", false).is_indexing);
    // another workspace is not held up
    assert!(m.begin_rebuild("other"));
    let plan = plan_of(step(&mut m, &[("/w/a.rs", "fn foo(){}")], 10));
    assert!(!m.begin_rebuild("ws"));
    let done = m.finish_rebuild("ws", plan, 5);
    assert!(matches!(done, ServerEvent::IndexingCompleted { total_files: 1, duration_ms: 5, .. }));
    assert!(!m.get_index_status("ws", false).is_indexing);
    assert!(m.begin_rebuild("ws"));
}

#[test]
fn first_rebuild_indexes_everything() {
    let mut m = manager();
    assert!(m.begin_rebuild("ws"));
    let plan = plan_of(step(&mut m, &[("/w/a.rs", "fn foo(){}"), ("/w/b.rs", "fn bar(){}")], 20));
    assert_eq!(plan.changes.to_index, vec!["/w/a.rs", "/w/b.rs"]);
    assert!(plan.changes.to_remove.is_empty());
    assert_eq!(plan.delete_paths, vec!["/w/a.rs", "/w/b.rs"]);
    assert_eq!(plan.total, 2);
    assert!(matches!(&plan.started, ServerEvent::IndexingStarted { workspace_id } if workspace_id == "ws"));
    let status = m.get_index_status("ws", false);
    assert!(status.is_indexing);
    assert!(!status.indexed);
    assert_eq!(status.indexed_count, 0);
    assert_eq!(status.total_count, 2);
    assert_eq!(status.total_size_bytes, 20);
    // the batch size is 2: the second document brings a progress event
    assert!(m.record_indexed("ws", 2).is_none());
    let progress = m.record_indexed("ws", 2);
    assert!(matches!(progress, Some(ServerEvent::IndexingProgress { indexed: 2, total: 2, .. })));
    let done = m.finish_rebuild("ws", plan, 12);
    assert!(matches!(
        &done,
        ServerEvent::IndexingCompleted { workspace_id, total_files: 2, duration_ms: 12 } if workspace_id == "ws"
    ));
    let status = m.get_index_status("ws", false);
    assert!(status.indexed);
    assert!(!status.is_indexing);
    assert_eq!(status.indexed_count, 2);
    assert!(m.has_content_hashes("ws"));
}

#[test]
fn rerunning_with_no_changes_writes_nothing() {
    let mut m = manager();
    let files = [("/w/a.rs", "fn foo(){}"), ("/w/b.rs", "fn bar(){}")];
    assert!(m.begin_rebuild("ws"));
    let plan = plan_of(step(&mut m, &files, 20));
    m.finish_rebuild("ws", plan, 1);
    assert!(m.begin_rebuild("ws"));
    assert!(matches!(step(&mut m, &files, 20), RebuildStep::UpToDate));
    let status = m.get_index_status("ws", false);
    assert!(status.indexed);
    assert!(!status.is_indexing);
    assert_eq!(status.indexed_count, 2);
    assert_eq!(status.total_count, 2);
    // the right to rebuild was given back
    assert!(m.begin_rebuild("ws"));
}

#[test]
fn second_rebuild_touches_only_what_differs() {
    let mut m = manager();
    assert!(m.begin_rebuild("ws"));
    let plan = plan_of(step(&mut m, &[("/w/a.rs", "fn foo(){}"), ("/w/b.rs", "fn bar(){}"), ("/w/c.rs", "fn c(){}")], 30));
    m.finish_rebuild("ws", plan, 1);
    assert!(m.begin_rebuild("ws"));
    let plan = plan_of(step(&mut m, &[("/w/a.rs", "fn baz(){}"), ("/w/b.rs", "fn bar(){}"), ("/w/d.rs", "fn d(){}")], 30));
    assert_eq!(plan.changes.to_index, vec!["/w/a.rs", "/w/d.rs"]);
    assert_eq!(plan.changes.to_remove, vec!["/w/c.rs"]);
    assert_eq!(plan.changes.unchanged, 1);
    assert_eq!(plan.delete_paths, vec!["/w/c.rs", "/w/a.rs", "/w/d.rs"]);
    assert_eq!(plan.total, 3);
    m.finish_rebuild("ws", plan, 1);
    let hashes = m.read_existing_hashes("ws");
    assert_eq!(hashes.len(), 3);
    assert_eq!(hashes.get("/w/a.rs"), Some(&compute_content_hash("fn baz(){}")));
    assert_eq!(hashes.get("/w/b.rs"), Some(&compute_content_hash("fn bar(){}")));
    assert_eq!(hashes.get("/w/d.rs"), Some(&compute_content_hash("fn d(){}")));
    assert_eq!(hashes.get("/w/c.rs"), None);
}

#[test]
fn failed_rebuild_gives_the_right_back() {
    let mut m = manager();
    assert!(m.begin_rebuild("ws"));
    let _plan = plan_of(step(&mut m, &[("/w/a.rs", "x")], 1));
    let event = m.fail_rebuild("ws", &AppError::IndexError("Failed to commit index: disk full".to_string()));
    assert!(matches!(
        &event,
        ServerEvent::IndexingError { workspace_id, error }
            if workspace_id == "ws" && error == "Index error: Failed to commit index: disk full"
    ));
    let status = m.get_index_status("ws", false);
    assert!(!status.is_indexing);
    assert!(!status.indexed);
    assert!(!m.has_content_hashes("ws") || m.read_existing_hashes("ws").len() == 0);
    assert!(m.begin_rebuild("ws"));
}

#[test]
fn progress_goes_out_every_batch() {
    let mut m = IndexManager::new("/d".to_string(), 1024, 3, 10, Vec::new());
    m.get_or_create_index("ws");
    let mut events = 0;
    for i in 1..=10usize {
        match m.record_indexed("ws", 10) {
            Some(ServerEvent::IndexingProgress { indexed, total, .. }) => {
                assert_eq!(indexed, i);
                assert_eq!(total, 10);
                assert_eq!(i % 3, 0);
                events += 1;
            }
            Some(_) => panic!("another event"),
            None => assert_ne!(i % 3, 0),
        }
    }
    assert_eq!(events, 3);
    assert!(m.record_indexed("unknown", 10).is_none());
    let mut silent = IndexManager::new("/d".to_string(), 1024, 0, 10, Vec::new());
    silent.get_or_create_index("ws");
    assert!(silent.record_indexed("ws", 1).is_none());
    assert_eq!(silent.get_index_status("ws", false).indexed_count, 1);
}

#[test]
fn status_of_unknown_workspace_is_empty() {
    let mut m = manager();
    let status = m.get_index_status("nope", true);
    assert!(!status.indexed && !status.is_indexing);
    assert_eq!((status.indexed_count, status.total_count, status.total_size_bytes), (0, 0, 0));
    let d = IndexStatusResponse::default();
    assert!(!d.indexed && !d.is_indexing);
    assert_eq!((d.indexed_count, d.total_count, d.total_size_bytes), (0, 0, 0));
}

#[test]
fn stored_hashes_count_as_indexed() {
    let mut m = manager();
    assert!(m.get_or_create_index("ws"));
    assert!(!m.get_or_create_index("ws"));
    assert!(!m.get_index_status("ws", false).indexed);
    assert!(m.get_index_status("ws", true).indexed);
    // and the workspace stays indexed from then on
    assert!(m.get_index_status("ws", false).indexed);
}

#[test]
fn stored_hashes_are_taken_in_once() {
    let mut m = manager();
    m.load_content_hashes("ws", scan(&[("/w/a.rs", "one")]));
    m.load_content_hashes("ws", scan(&[("/w/a.rs", "two"), ("/w/b.rs", "x")]));
    let hashes = m.read_existing_hashes("ws");
    assert_eq!(hashes.len(), 1);
    assert_eq!(hashes.get("/w/a.rs"), Some(&compute_content_hash("one")));
    assert_eq!(m.read_existing_hashes("fresh").len(), 0);
    assert!(m.has_content_hashes("fresh"));
}

#[test]
fn incremental_reindex() {
    let mut m = manager();
    assert!(m.begin_rebuild("ws"));
    let plan = plan_of(step(&mut m, &[("/w/a.rs", "fn foo(){}"), ("/w/b.rs", "fn bar(){}")], 20));
    m.finish_rebuild("ws", plan, 1);
    let before_b = m.read_existing_hashes("ws").get("/w/b.rs").cloned();
    // a.rs is written with new content
    let action = m.reindex_file("ws", "a.rs", "/w", "modify", Some(10));
    assert!(matches!(&action, ReindexAction::Replace { path } if path == "/w/a.rs"));
    assert_eq!(m.read_existing_hashes("ws").get("/w/a.rs"), None);
    m.record_document("ws", "/w/a.rs", compute_content_hash("fn baz(){}"));
    let hashes = m.read_existing_hashes("ws");
    assert_eq!(hashes.get("/w/a.rs"), Some(&compute_content_hash("fn baz(){}")));
    assert_ne!(hashes.get("/w/a.rs"), Some(&compute_content_hash("fn foo(){}")));
    assert_eq!(hashes.get("/w/b.rs").cloned(), before_b);
}

#[test]
fn removal() {
    let mut m = manager();
    assert!(m.begin_rebuild("ws"));
    let plan = plan_of(step(&mut m, &[("/w/a.rs", "fn foo(){}"), ("/w/b.rs", "fn bar(){}")], 20));
    m.finish_rebuild("ws", plan, 1);
    let action = m.reindex_file("ws", "b.rs", "/w", "remove", None);
    assert!(matches!(&action, ReindexAction::Delete { path } if path == "/w/b.rs"));
    let hashes = m.read_existing_hashes("ws");
    assert!(!hashes.contains_key("/w/b.rs"));
    assert!(hashes.contains_key("/w/a.rs"));
    // a removal is a removal even if a file still stands there
    let action = m.reindex_file("ws", "a.rs", "/w", "remove", Some(10));
    assert!(matches!(action, ReindexAction::Delete { .. }));
}

#[test]
fn single_file_update_is_skipped_during_a_rebuild_or_without_an_index() {
    let mut m = manager();
    assert!(matches!(m.reindex_file("ws", "a.rs", "/w", "modify", Some(10)), ReindexAction::Skip));
    m.load_content_hashes("ws", scan(&[("/w/a.rs", "x")]));
    assert!(m.begin_rebuild("ws"));
    assert!(matches!(m.reindex_file("ws", "a.rs", "/w", "modify", Some(10)), ReindexAction::Skip));
    assert!(m.read_existing_hashes("ws").contains_key("/w/a.rs"));
}

#[test]
fn single_file_update_applies_the_filter() {
    let mut m = manager();
    m.get_or_create_index("ws");
    assert!(matches!(m.reindex_file("ws", "a.rs", "/w", "create", Some(10)), ReindexAction::Replace { .. }));
    assert!(matches!(m.reindex_file("ws", "a.rs", "/w", "create", None), ReindexAction::Delete { .. }));
    assert!(matches!(m.reindex_file("ws", "a.rs", "/w", "create", Some(0)), ReindexAction::Delete { .. }));
    assert!(matches!(m.reindex_file("ws", "a.bin", "/w", "create", Some(10)), ReindexAction::Delete { .. }));
    assert!(matches!(m.reindex_file("ws", "dist/a.js", "/w", "create", Some(10)), ReindexAction::Delete { .. }));
    assert!(matches!(m.reindex_file("ws", "k.secret", "/w", "create", Some(10)), ReindexAction::Delete { .. }));
}

#[test]
fn removing_an_index_forgets_everything() {
    let mut m = manager();
    assert!(m.begin_rebuild("ws"));
    let plan = plan_of(step(&mut m, &[("/w/a.rs", "x")], 1));
    m.finish_rebuild("ws", plan, 1);
    assert_eq!(m.remove_index("ws"), "/data/indexes/ws");
    assert!(!m.has_content_hashes("ws"));
    let status = m.get_index_status("ws", false);
    assert!(!status.indexed);
    assert_eq!(status.total_count, 0);
}
