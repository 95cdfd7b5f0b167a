use vyotiq_backend::error::AppError;
use vyotiq_backend::indexer::{IndexStatusResponse, WalkEntry};
use vyotiq_backend::routes::files::{
    check_readable, check_source, create_directory, create_file, default_limit, detect_language,
    list_files, read_file_inner, search_files, CopyRequest, DirectoryStep, FilePathRequest,
    ListFilesQuery, MoveRequest, ReadFileQuery, RenameRequest, SearchFilesRequest, WriteFileRequest,
};
use vyotiq_backend::routes::health::{health_check, init_start_time};
use vyotiq_backend::routes::search::{
    clamp_limit, collect_indexable_files_pub, detect_language_for_embedding, index_workspace,
    change_for_vectors, instructed_query, is_embeddable, is_embeddable_ext, spawn_background_indexing, validate_pattern,
    validate_query, IndexRequest, ReadFile,
};
use vyotiq_backend::routes::workspace::{needs_indexing, CreateWorkspaceRequest};
use vyotiq_backend::state::ServerEvent;
use vyotiq_backend::workspace::FileEntry;

fn entry(name: &str, relative: &str, ext: Option<&str>) -> FileEntry {
    FileEntry {
        name: name.to_string(),
        path: format!("/w/{}", relative),
        relative_path: relative.to_string(),
        is_dir: false,
        is_symlink: false,
        size: 1,
        modified: None,
        created: None,
        extension: ext.map(|e| e.to_string()),
        children_count: None,
        is_hidden: false,
    }
}

fn status(indexed: bool, is_indexing: bool) -> IndexStatusResponse {
    IndexStatusResponse { indexed, is_indexing, indexed_count: 7, total_count: 9, total_size_bytes: 1234 }
}

fn names(found: &[FileEntry]) -> Vec<&str> {
    found.iter().map(|e| e.name.as_str()).collect()
}

#[test]
fn requests_carry_their_fields() {
    let r = CreateWorkspaceRequest { name: "n".to_string(), path: "/p".to_string() };
    assert_eq!((r.name.as_str(), r.path.as_str()), ("n", "/p"));
    assert_eq!(FilePathRequest { path: "a".to_string() }.path, "a");
    assert_eq!(ReadFileQuery { path: "a".to_string() }.path, "a");
    let w = WriteFileRequest { path: "a".to_string(), content: "c".to_string() };
    assert_eq!((w.path.as_str(), w.content.as_str()), ("a", "c"));
    let r = RenameRequest { old_path: "a".to_string(), new_path: "b".to_string() };
    assert_eq!((r.old_path.as_str(), r.new_path.as_str()), ("a", "b"));
    let m = MoveRequest { source: "a".to_string(), destination: "b".to_string() };
    assert_eq!((m.source.as_str(), m.destination.as_str()), ("a", "b"));
    let c = CopyRequest { source: "a".to_string(), destination: "b".to_string() };
    assert_eq!((c.source.as_str(), c.destination.as_str()), ("a", "b"));
    assert_eq!(default_limit(), 100);
}

#[test]
fn listing_defaults() {
    let o = list_files(&ListFilesQuery { path: None, recursive: None, show_hidden: None, max_depth: None });
    assert_eq!(o.path, "");
    assert!(!o.recursive && !o.show_hidden);
    assert_eq!(o.max_depth, 1);
    let o = list_files(&ListFilesQuery {
        path: Some("src".to_string()),
        recursive: Some(true),
        show_hidden: Some(true),
        max_depth: Some(4),
    });
    assert_eq!(o.path, "src");
    assert!(o.recursive && o.show_hidden);
    assert_eq!(o.max_depth, 4);
}

#[test]
fn reading_a_file() {
    assert!(check_readable("a.rs", true, 10, 10).is_ok());
    assert!(matches!(check_readable("a.rs", false, 10, 10), Err(AppError::FileNotFound(p)) if p == "a.rs"));
    assert!(matches!(
        check_readable("a.rs", true, 11, 10),
        Err(AppError::BadRequest(m)) if m == "File too large to read"
    ));
    let r = read_file_inner("src/a.RS", "fn x(){}".to_string(), 8, "RS");
    assert_eq!(r.path, "src/a.RS");
    assert_eq!(r.content, "fn x(){}");
    assert_eq!(r.size, 8);
    assert_eq!(r.language, "rust");
    assert_eq!(r.encoding, "utf-8");
    assert_eq!(detect_language("toml"), "toml");
    assert_eq!(detect_language(""), "plaintext");
}

#[test]
fn creating_and_deleting() {
    assert!(create_file("a.rs", false).is_ok());
    assert!(matches!(create_file("a.rs", true), Err(AppError::BadRequest(m)) if m == "File already exists: a.rs"));
    assert!(check_source("a.rs", true).is_ok());
    assert!(matches!(check_source("a.rs", false), Err(AppError::FileNotFound(p)) if p == "a.rs"));
    assert!(matches!(create_directory("d", false, false), Ok(DirectoryStep::Create)));
    assert!(matches!(create_directory("d", true, true), Ok(DirectoryStep::AlreadyExists)));
    assert!(matches!(
        create_directory("d", true, false),
        Err(AppError::BadRequest(m)) if m == "Path is a file, not a directory: d"
    ));
}

#[test]
fn search_by_name_or_path() {
    let entries = vec![
        entry("Main.rs", "src/Main.rs", Some("rs")),
        entry("lib.rs", "src/lib.rs", Some("rs")),
        entry("main.py", "tools/main.py", Some("py")),
        entry("notes.md", "docs/maintenance/notes.md", Some("md")),
        entry("Makefile", "Makefile", None),
    ];
    let req = SearchFilesRequest { query: "MAIN".to_string(), file_types: None, limit: 100 };
    assert_eq!(names(&search_files(&entries, &req)), vec!["Main.rs", "main.py", "notes.md"]);
    let req = SearchFilesRequest { query: "main".to_string(), file_types: None, limit: 2 };
    assert_eq!(names(&search_files(&entries, &req)), vec!["Main.rs", "main.py"]);
    let req = SearchFilesRequest { query: "main".to_string(), file_types: None, limit: 0 };
    assert!(search_files(&entries, &req).is_empty());
    let req = SearchFilesRequest { query: "".to_string(), file_types: None, limit: 100 };
    assert_eq!(search_files(&entries, &req).len(), 5);
    let req = SearchFilesRequest { query: "src/".to_string(), file_types: None, limit: 100 };
    assert_eq!(names(&search_files(&entries, &req)), vec!["Main.rs", "lib.rs"]);
}

#[test]
fn search_by_file_type() {
    let entries = vec![
        entry("Main.RS", "src/Main.RS", Some("RS")),
        entry("main.py", "tools/main.py", Some("py")),
        entry("Makefile", "Makefile", None),
    ];
    let types = |list: &[&str]| Some(list.iter().map(|s| s.to_string()).collect::<Vec<_>>());
    let req = SearchFilesRequest { query: "ma".to_string(), file_types: types(&[".rs"]), limit: 100 };
    assert_eq!(names(&search_files(&entries, &req)), vec!["Main.RS"]);
    let req = SearchFilesRequest { query: "ma".to_string(), file_types: types(&["..PY", "rs"]), limit: 100 };
    assert_eq!(names(&search_files(&entries, &req)), vec!["Main.RS", "main.py"]);
    // no type at all is no restriction
    let req = SearchFilesRequest { query: "ma".to_string(), file_types: types(&[]), limit: 100 };
    assert_eq!(search_files(&entries, &req).len(), 3);
    // an entry without extension has the empty extension
    let req = SearchFilesRequest { query: "ma".to_string(), file_types: types(&["."]), limit: 100 };
    assert_eq!(names(&search_files(&entries, &req)), vec!["Makefile"]);
    let req = SearchFilesRequest { query: "ma".to_string(), file_types: types(&["go"]), limit: 100 };
    assert!(search_files(&entries, &req).is_empty());
}

#[test]
fn queries_are_checked() {
    assert!(validate_query("foo").is_ok());
    assert!(validate_query(" foo bar ").is_ok());
    assert!(matches!(validate_query(""), Err(AppError::BadRequest(m)) if m == "Search query must not be empty"));
    assert!(matches!(validate_query("  \t\n "), Err(AppError::BadRequest(m)) if m == "Search query must not be empty"));
    assert!(validate_query(&"x".repeat(1000)).is_ok());
    assert!(matches!(
        validate_query(&"x".repeat(1001)),
        Err(AppError::BadRequest(m)) if m == "Search query too long (1001 chars). Maximum allowed is 1000."
    ));
    // whitespace is what Unicode calls so
    for blank in ["\u{85}", "\u{a0}", "\u{1680}", "\u{2000}\u{200a}", "\u{2028}\u{2029}", "\u{202f}\u{205f}\u{3000}", "\u{b}\u{c}\r"] {
        assert!(validate_query(blank).is_err(), "{:?}", blank);
    }
    for text in ["\u{200b}", "\u{180e}", "\u{feff}", "\u{1c}", "\u{8}", "\u{e}", "\u{2060}"] {
        assert!(validate_query(text).is_ok(), "{:?}", text);
    }
    // the length is counted in characters
    assert!(validate_query(&"é".repeat(1000)).is_ok());
    assert!(validate_query(&"é".repeat(1001)).is_err());
    assert!(validate_pattern("fn\\s+\\w+").is_ok());
    assert!(matches!(validate_pattern(" "), Err(AppError::BadRequest(m)) if m == "Grep pattern must not be empty"));
    assert!(matches!(
        validate_pattern(&"a".repeat(2000)),
        Err(AppError::BadRequest(m)) if m == "Grep pattern too long (2000 chars). Maximum allowed is 1000."
    ));
}

#[test]
fn limit_of_a_semantic_search() {
    assert_eq!(clamp_limit(None), 20);
    assert_eq!(clamp_limit(Some(0)), 1);
    assert_eq!(clamp_limit(Some(1)), 1);
    assert_eq!(clamp_limit(Some(20)), 20);
    assert_eq!(clamp_limit(Some(1000)), 1000);
    assert_eq!(clamp_limit(Some(1001)), 1000);
    assert_eq!(clamp_limit(Some(u64::MAX)), 1000);
    assert_eq!(
        instructed_query("parse config"),
        "Instruct: Retrieve semantically similar source code or documentation\nQuery: parse config"
    );
}

#[test]
fn request_to_index() {
    assert!(index_workspace(&status(false, true)) == IndexRequest::AlreadyIndexing);
    assert!(index_workspace(&status(true, false)) == IndexRequest::Started);
    assert_eq!(IndexRequest::AlreadyIndexing.status(), "already_indexing");
    assert_eq!(IndexRequest::Started.status(), "indexing_started");
    assert!(needs_indexing(&status(false, false)));
    assert!(!needs_indexing(&status(true, false)));
    assert!(!needs_indexing(&status(false, true)));
    assert!(!needs_indexing(&status(true, true)));
}

#[test]
fn background_indexing_sums_up() {
    let both = spawn_background_indexing("ws", Ok(status(true, false)), Ok(12));
    assert_eq!(both.stats, Some((7, 1234, true)));
    assert_eq!(both.events.len(), 1);
    assert!(matches!(&both.events[0], ServerEvent::SearchReady { workspace_id } if workspace_id == "ws"));

    let lexical_failed = spawn_background_indexing("ws", Err(AppError::IndexError("boom".to_string())), Ok(3));
    assert_eq!(lexical_failed.stats, None);
    assert_eq!(lexical_failed.events.len(), 2);
    assert!(matches!(&lexical_failed.events[0], ServerEvent::IndexingError { error, .. } if error == "Index error: boom"));
    assert!(matches!(&lexical_failed.events[1], ServerEvent::SearchReady { .. }));

    let vector_failed = spawn_background_indexing("ws", Ok(status(true, false)), Err(AppError::Io("disk".to_string())));
    assert_eq!(vector_failed.stats, Some((7, 1234, true)));
    assert_eq!(vector_failed.events.len(), 2);
    assert!(matches!(
        &vector_failed.events[0],
        ServerEvent::IndexingError { workspace_id, error } if workspace_id == "ws" && error == "Vector indexing failed: IO error: disk"
    ));
    assert!(matches!(&vector_failed.events[1], ServerEvent::SearchReady { .. }));

    let neither = spawn_background_indexing(
        "ws",
        Err(AppError::IndexError("a".to_string())),
        Err(AppError::IndexError("b".to_string())),
    );
    assert_eq!(neither.stats, None);
    assert_eq!(neither.events.len(), 2);
    assert!(neither.events.iter().all(|e| matches!(e, ServerEvent::IndexingError { .. })));
}

#[test]
fn files_for_embedding() {
    let walk = |path: &str, size: u64, is_file: bool| WalkEntry {
        path: path.to_string(),
        relative_path: path.trim_start_matches("/w/").to_string(),
        is_file,
        size,
    };
    let none: Vec<String> = Vec::new();
    let cap = 2 * 1024 * 1024;
    assert!(is_embeddable(&walk("/w/src/a.rs", 10, true), cap, &none));
    assert!(is_embeddable(&walk("/w/src/A.RS", 2 * 1024 * 1024, true), cap, &none));
    assert!(!is_embeddable(&walk("/w/src/a.rs", 2 * 1024 * 1024 + 1, true), cap, &none));
    assert!(!is_embeddable(&walk("/w/src/a.rs", 0, true), cap, &none));
    assert!(!is_embeddable(&walk("/w/src/a.rs", 10, false), cap, &none));
    assert!(!is_embeddable(&walk("/w/build/a.rs", 10, true), cap, &none));
    assert!(!is_embeddable(&walk("/w/Makefile", 10, true), cap, &none));
    // the configured cap counts, and so do the patterns of the user
    assert!(is_embeddable(&walk("/w/big.rs", 2048, true), 2048, &none));
    assert!(!is_embeddable(&walk("/w/big.rs", 2048, true), 1024, &none));
    assert!(is_embeddable(&walk("/w/big.rs", 20 * 1024 * 1024, true), 32 * 1024 * 1024, &none));
    assert!(!is_embeddable(&walk("/w/gen/a.rs", 10, true), cap, &vec!["gen".to_string()]));
    assert!(!is_embeddable(&walk("/w/src/a.min.js", 10, true), cap, &vec!["*.min.js".to_string()]));
    // a single changed file that is not offered for embedding counts as taken away
    assert_eq!(change_for_vectors("modify", Some(10), "/w/src/a.rs", "src/a.rs", 1024, &none), "modify");
    assert_eq!(change_for_vectors("create", Some(1024), "/w/src/a.rs", "src/a.rs", 1024, &none), "create");
    assert_eq!(change_for_vectors("modify", Some(2048), "/w/big.rs", "big.rs", 1024, &none), "remove");
    assert_eq!(change_for_vectors("modify", None, "/w/src/a.rs", "src/a.rs", 1024, &none), "remove");
    assert_eq!(change_for_vectors("modify", Some(0), "/w/src/a.rs", "src/a.rs", 1024, &none), "remove");
    assert_eq!(change_for_vectors("modify", Some(10), "/w/Makefile", "Makefile", 1024, &none), "remove");
    assert_eq!(change_for_vectors("modify", Some(10), "/w/target/a.rs", "target/a.rs", 1024, &none), "remove");
    assert_eq!(change_for_vectors("remove", Some(10), "/w/src/a.rs", "src/a.rs", 1024, &none), "remove");
    assert!(is_embeddable_ext("md"));
    assert!(!is_embeddable_ext("MD"));
    assert_eq!(detect_language_for_embedding("kt"), "kotlin");

    let read = |path: &str, size: u64, content: Option<&str>| ReadFile {
        entry: walk(path, size, true),
        content: content.map(|c| c.to_string()),
    };
    let files = vec![
        read("/w/src/a.rs", 8, Some("fn a(){}")),
        read("/w/src/binary.rs", 8, None),
        read("/w/big.rs", 2048, Some("// big")),
        read("/w/node_modules/x.js", 3, Some("x()")),
        read("/w/old/b.rs", 3, Some("b()")),
        read("/w/docs\\Read.MD", 4, Some("# hi")),
    ];
    let out = collect_indexable_files_pub("/w", files, 1024, &vec!["old".to_string()]);
    assert_eq!(out.len(), 2);
    assert_eq!(out[0].abs_path, "/w/src/a.rs");
    assert_eq!(out[0].relative_path, "src/a.rs");
    assert_eq!(out[0].content, "fn a(){}");
    assert_eq!(out[0].language, "rust");
    assert_eq!(out[1].relative_path, "docs/Read.MD");
    assert_eq!(out[1].language, "markdown");
}

#[test]
fn health() {
    let mut started: Option<u64> = None;
    assert_eq!(health_check(&started, 5_000).uptime, 0);
    init_start_time(&mut started, 1_000);
    assert_eq!(started, Some(1_000));
    // only the first call counts
    init_start_time(&mut started, 9_000);
    assert_eq!(started, Some(1_000));
    let report = health_check(&started, 62_500);
    assert_eq!(report.status, "ok");
    assert_eq!(report.service, "vyotiq-backend");
    assert_eq!(report.uptime, 61);
    assert_eq!(health_check(&started, 500).uptime, 0);
}
