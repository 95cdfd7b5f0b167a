use vyotiq_backend::error::AppError;
use vyotiq_backend::paths::{keeps_below, work_out};
use vyotiq_backend::workspace::{
    extension_of_path, is_hidden_name, listing_target, sort_by_recency, within_depth, EntryFacts,
    FileEntry, PathResolution, Timestamp, Workspace, WorkspaceManager,
};

fn at(secs: i64, nanos: u32) -> Timestamp {
    Timestamp { secs, nanos }
}

fn workspace(id: &str, path: &str, accessed: Timestamp) -> Workspace {
    Workspace {
        id: id.to_string(),
        name: format!("name of {}", id),
        path: path.to_string(),
        created_at: at(1, 0),
        last_accessed: accessed,
        is_active: false,
        indexed: false,
        total_files: 0,
        total_size_bytes: 0,
    }
}

fn manager() -> WorkspaceManager {
    WorkspaceManager::new("/data".to_string(), vec!["*.bak".to_string()], Vec::new())
}

fn entry(name: &str, is_dir: bool) -> FileEntry {
    FileEntry {
        name: name.to_string(),
        path: format!("/w/{}", name),
        relative_path: name.to_string(),
        is_dir,
        is_symlink: false,
        size: 1,
        modified: None,
        created: None,
        extension: None,
        children_count: None,
        is_hidden: false,
    }
}

fn resolved(target: Option<&str>, root: Option<&str>) -> PathResolution {
    PathResolution { target: target.map(|s| s.to_string()), root: root.map(|s| s.to_string()) }
}

#[test]
fn duplicate_workspace_rejection() {
    let mut m = manager();
    // "/tmp/A" resolves to itself
    let first = m.create_workspace("a".to_string(), "/tmp/A".to_string(), Some("/tmp/A".to_string()), &Vec::new(), at(7, 0));
    assert!(first.is_ok());
    // "/tmp/./A" resolves to "/tmp/A" too
    let second = m.create_workspace(
        "again".to_string(),
        "/tmp/./A".to_string(),
        Some("/tmp/A".to_string()),
        &vec!["/tmp/A".to_string()],
        at(8, 0),
    );
    match second {
        Err(AppError::WorkspaceAlreadyExists(path)) => assert_eq!(path, "/tmp/./A"),
        _ => panic!("the second workspace was to be rejected"),
    }
    // the recorded root is enough to reject it
    let third =
        m.create_workspace("again".to_string(), "/tmp/./A".to_string(), Some("/tmp/A".to_string()), &Vec::new(), at(9, 0));
    assert!(matches!(third, Err(AppError::WorkspaceAlreadyExists(_))));
    // and so is a root that only now resolves to the same place
    let fourth = m.create_workspace(
        "link".to_string(),
        "/tmp/link".to_string(),
        Some("/srv/B".to_string()),
        &vec!["/srv/B".to_string()],
        at(9, 0),
    );
    assert!(matches!(fourth, Err(AppError::WorkspaceAlreadyExists(_))));
    assert_eq!(m.list_workspaces().len(), 1);
}

#[test]
fn create_workspace_records_the_resolved_root() {
    let mut m = manager();
    let ws = match m.create_workspace(
        "proj".to_string(),
        "./proj".to_string(),
        Some("/home/u/proj".to_string()),
        &Vec::new(),
        at(1_700_000_000, 5),
    ) {
        Ok(ws) => ws,
        Err(_) => panic!("the workspace was to be created"),
    };
    assert_eq!(ws.name, "proj");
    assert_eq!(ws.path, "/home/u/proj");
    assert_eq!(ws.root_path(), "/home/u/proj");
    assert!(!ws.is_active && !ws.indexed);
    assert_eq!((ws.total_files, ws.total_size_bytes), (0, 0));
    assert_eq!(ws.id.len(), 36);
    assert_eq!(ws.id.chars().filter(|c| *c == '-').count(), 4);
    assert_eq!((ws.created_at.secs, ws.created_at.nanos), (1_700_000_000, 5));
    assert_eq!((ws.last_accessed.secs, ws.last_accessed.nanos), (1_700_000_000, 5));
    let got = m.get_workspace(&ws.id);
    assert!(matches!(&got, Ok(w) if w.id == ws.id && w.path == "/home/u/proj" && w.name == "proj"));
    let other = match m.create_workspace("b".to_string(), "/b".to_string(), Some("/b".to_string()), &Vec::new(), at(3, 0)) {
        Ok(ws) => ws,
        Err(_) => panic!("the workspace was to be created"),
    };
    assert_ne!(other.id, ws.id);
    assert_eq!(m.persist().len(), 2);
}

#[test]
fn a_root_that_cannot_be_resolved_is_not_found() {
    let mut m = manager();
    match m.create_workspace("x".to_string(), "/nope".to_string(), None, &Vec::new(), at(3, 0)) {
        Err(AppError::FileNotFound(message)) => assert_eq!(message, "Path does not exist: /nope"),
        _ => panic!("file not found was expected"),
    }
    assert!(m.list_workspaces().is_empty());
}

#[test]
fn unknown_workspace() {
    let mut m = manager();
    assert!(matches!(m.get_workspace("nope"), Err(AppError::WorkspaceNotFound(id)) if id == "nope"));
    assert!(matches!(m.remove_workspace("nope"), Err(AppError::WorkspaceNotFound(id)) if id == "nope"));
    assert!(matches!(m.activate_workspace("nope", at(3, 0)), Err(AppError::WorkspaceNotFound(id)) if id == "nope"));
    assert!(matches!(m.update_workspace_stats("nope", 1, 2, true), Err(AppError::WorkspaceNotFound(id)) if id == "nope"));
    assert!(matches!(
        m.validate_path("nope", "a.rs", &resolved(Some("/w/a.rs"), Some("/w"))),
        Err(AppError::WorkspaceNotFound(id)) if id == "nope"
    ));
}

#[test]
fn stored_workspaces_are_loaded() {
    let m = WorkspaceManager::new(
        "/data".to_string(),
        Vec::new(),
        vec![workspace("a", "/a", at(10, 0)), workspace("b", "/b", at(30, 0)), workspace("c", "/c", at(20, 0))],
    );
    assert_eq!(m.workspaces_file(), "/data/workspaces.json");
    let ids: Vec<String> = m.list_workspaces().iter().map(|w| w.id.clone()).collect();
    assert_eq!(ids, vec!["b", "c", "a"]);
    let mut all: Vec<String> = m.persist().iter().map(|w| w.id.clone()).collect();
    all.sort();
    assert_eq!(all, vec!["a", "b", "c"]);
}

#[test]
fn most_recent_first() {
    let sorted = sort_by_recency(vec![
        workspace("a", "/a", at(5, 10)),
        workspace("b", "/b", at(5, 20)),
        workspace("c", "/c", at(9, 0)),
        workspace("d", "/d", at(-3, 999_999_999)),
        workspace("e", "/e", at(5, 20)),
    ]);
    let ids: Vec<&str> = sorted.iter().map(|w| w.id.as_str()).collect();
    assert_eq!(ids, vec!["c", "b", "e", "a", "d"]);
    assert!(at(1, 5).is_before(&at(1, 6)));
    assert!(at(1, 999).is_before(&at(2, 0)));
    assert!(!at(2, 0).is_before(&at(2, 0)));
    assert!(!at(3, 0).is_before(&at(2, 999)));
}

#[test]
fn activating_deactivates_the_others() {
    let mut m = WorkspaceManager::new(
        "/data".to_string(),
        Vec::new(),
        vec![workspace("a", "/a", at(10, 0)), workspace("b", "/b", at(30, 0)), workspace("c", "/c", at(20, 0))],
    );
    let active = match m.activate_workspace("a", at(40, 0)) {
        Ok(ws) => ws,
        Err(_) => panic!("the workspace was to be activated"),
    };
    assert!(active.is_active);
    assert_eq!(active.id, "a");
    assert!(active.last_accessed == at(40, 0));
    let list = m.list_workspaces();
    assert_eq!(list[0].id, "a");
    assert_eq!(list.iter().filter(|w| w.is_active).count(), 1);
    assert!(m.activate_workspace("b", at(50, 0)).is_ok());
    let list = m.list_workspaces();
    assert_eq!(list[0].id, "b");
    assert_eq!(list[1].id, "a");
    assert!(list[0].is_active && !list[1].is_active && !list[2].is_active);
    // the rest of each workspace is as it was
    assert_eq!(list[2].path, "/c");
    assert!(list[2].last_accessed == at(20, 0));
    // activating an unknown workspace leaves none active
    assert!(m.activate_workspace("nope", at(60, 0)).is_err());
    assert_eq!(m.list_workspaces().iter().filter(|w| w.is_active).count(), 0);
}

#[test]
fn stats_and_removal() {
    let mut m = WorkspaceManager::new("/data".to_string(), Vec::new(), vec![workspace("a", "/a", at(10, 0)), workspace("b", "/b", at(5, 0))]);
    assert!(m.update_workspace_stats("a", 12, 3456, true).is_ok());
    let a = m.get_workspace("a");
    assert!(matches!(&a, Ok(w) if w.total_files == 12 && w.total_size_bytes == 3456 && w.indexed && w.path == "/a"));
    assert!(matches!(&m.get_workspace("b"), Ok(w) if w.total_files == 0 && !w.indexed));
    assert!(m.remove_workspace("a").is_ok());
    assert!(m.get_workspace("a").is_err());
    assert_eq!(m.list_workspaces().len(), 1);
    assert!(m.remove_workspace("a").is_err());
    // the root is free again
    assert!(m.create_workspace("a".to_string(), "/a".to_string(), Some("/a".to_string()), &Vec::new(), at(3, 0)).is_ok());
}

#[test]
fn path_traversal_refusal() {
    let m = WorkspaceManager::new("/data".to_string(), Vec::new(), vec![workspace("ws", "/tmp/A", at(1, 0))]);
    // "../etc/passwd" below "/tmp/A" resolves to "/tmp/etc/passwd"
    let r = m.validate_path("ws", "../etc/passwd", &resolved(Some("/tmp/etc/passwd"), Some("/tmp/A")));
    match r {
        Err(e) => {
            assert_eq!(e.status_code(), 403);
            assert!(matches!(&e, AppError::PathNotAllowed(m) if m == "Path '../etc/passwd' is outside workspace"));
        }
        Ok(_) => panic!("the path was to be refused"),
    }
    // a sibling whose name starts like the root
    assert!(matches!(
        m.validate_path("ws", "../AB/x", &resolved(Some("/tmp/AB/x"), Some("/tmp/A"))),
        Err(AppError::PathNotAllowed(_))
    ));
    // a link that leads out
    assert!(matches!(
        m.validate_path("ws", "link/secret", &resolved(Some("/etc/secret"), Some("/tmp/A"))),
        Err(AppError::PathNotAllowed(_))
    ));
}

#[test]
fn a_path_that_climbs_out_is_refused_whatever_is_on_disk() {
    let m = WorkspaceManager::new("/data".to_string(), Vec::new(), vec![workspace("ws", "/tmp/A", at(1, 0))]);
    // nothing stands at "/tmp/etc", so the path could not be resolved
    let r = m.validate_path("ws", "../etc/passwd", &resolved(None, Some("/tmp/A")));
    match r {
        Err(e) => {
            assert_eq!(e.status_code(), 403);
            assert!(matches!(&e, AppError::PathNotAllowed(m) if m == "Path '../etc/passwd' is outside workspace"));
        }
        Ok(_) => panic!("the path was to be refused"),
    }
    for path in ["..", "a/../..", "a/../../A2/x", "./../x", "..\\x", "/etc/passwd", "/tmp/AB", "a/b/../../../A/../x"] {
        assert!(
            matches!(m.validate_path("ws", path, &resolved(None, None)), Err(AppError::PathNotAllowed(_))),
            "{}",
            path
        );
        // also where the caller claims that it resolves inside
        assert!(
            matches!(
                m.validate_path("ws", path, &resolved(Some("/tmp/A/x"), Some("/tmp/A"))),
                Err(AppError::PathNotAllowed(_))
            ),
            "{}",
            path
        );
    }
    // paths that stay inside go on to what is on disk
    for path in ["", ".", "a/..", "a/../b", "a//b/./c", "a/../../A/x", "/tmp/A/x", "/tmp/A", "..a/b", "a/...", "/tmp/./A/../A/x"] {
        assert!(
            matches!(m.validate_path("ws", path, &resolved(None, Some("/tmp/A"))), Err(AppError::FileNotFound(_))),
            "{}",
            path
        );
        assert!(
            matches!(m.validate_path("ws", path, &resolved(Some("/tmp/A/x"), Some("/tmp/A"))), Ok(p) if p == "/tmp/A/x"),
            "{}",
            path
        );
    }
}

#[test]
fn paths_worked_out_on_their_text() {
    assert!(keeps_below("/tmp/A", "x/y"));
    assert!(keeps_below("/tmp/A/", "x/../y"));
    assert!(!keeps_below("/tmp/A", "../A2"));
    assert!(!keeps_below("/tmp/A", "x/../../.."));
    assert!(keeps_below("C:\\ws", "src\\..\\a.rs"));
    assert!(!keeps_below("C:\\ws", "src\\..\\..\\a.rs"));
    assert!(keeps_below("/", "etc/passwd"));
    assert!(!keeps_below("/", ".."));
    let parts = |p: &str| work_out(&p.chars().collect::<Vec<char>>()).map(|v| v.into_iter().map(|s| s.into_iter().collect::<String>()).collect::<Vec<String>>());
    assert_eq!(parts("/tmp/./A//b/../c"), Some(vec!["tmp".to_string(), "A".to_string(), "c".to_string()]));
    assert_eq!(parts("a/.."), Some(Vec::new()));
    assert_eq!(parts("a/../.."), None);
    assert_eq!(parts("../a"), None);
    assert_eq!(parts(""), Some(Vec::new()));
}

#[test]
fn an_id_in_use_is_not_given_again() {
    let mut m = WorkspaceManager::new("/data".to_string(), Vec::new(), vec![workspace("a", "/a", at(10, 0))]);
    let r = m.enter_workspace("a".to_string(), "other".to_string(), "/other".to_string(), at(20, 0));
    assert!(matches!(r, Err(AppError::Internal(m)) if m == "Workspace id is already in use"));
    // the workspace that had the id is as it was
    assert!(matches!(&m.get_workspace("a"), Ok(w) if w.path == "/a" && w.last_accessed == at(10, 0)));
    assert_eq!(m.list_workspaces().len(), 1);
    let r = m.enter_workspace("b".to_string(), "other".to_string(), "/other".to_string(), at(20, 0));
    assert!(matches!(&r, Ok(w) if w.id == "b" && w.name == "other" && w.path == "/other"
        && w.created_at == at(20, 0) && w.last_accessed == at(20, 0)
        && !w.is_active && !w.indexed && w.total_files == 0 && w.total_size_bytes == 0));
    assert_eq!(m.list_workspaces().len(), 2);
    // ids that are drawn differ from those in use
    let mut ids = vec!["a".to_string(), "b".to_string()];
    for i in 0..20 {
        let root = format!("/r{}", i);
        match m.create_workspace("n".to_string(), root.clone(), Some(root), &Vec::new(), at(30, 0)) {
            Ok(w) => {
                assert!(!ids.contains(&w.id));
                ids.push(w.id);
            }
            Err(_) => panic!("the workspace was to be created"),
        }
    }
    assert_eq!(m.list_workspaces().len(), 22);
}

#[test]
fn validate_path_gives_the_resolved_path() {
    let m = WorkspaceManager::new("/data".to_string(), Vec::new(), vec![workspace("ws", "/tmp/A", at(1, 0))]);
    assert!(matches!(
        m.validate_path("ws", "src/../src/a.rs", &resolved(Some("/tmp/A/src/a.rs"), Some("/tmp/A"))),
        Ok(p) if p == "/tmp/A/src/a.rs"
    ));
    assert!(matches!(m.validate_path("ws", "", &resolved(Some("/tmp/A"), Some("/tmp/A"))), Ok(p) if p == "/tmp/A"));
    assert!(matches!(
        m.validate_path("ws", "gone/x", &resolved(None, Some("/tmp/A"))),
        Err(AppError::FileNotFound(p)) if p == "gone/x"
    ));
    assert!(matches!(
        m.validate_path("ws", "a.rs", &resolved(Some("/tmp/A/a.rs"), None)),
        Err(AppError::WorkspaceNotFound(id)) if id == "ws"
    ));
}

#[test]
fn what_a_listing_leaves_out() {
    let m = manager();
    assert!(m.should_exclude("node_modules"));
    assert!(m.should_exclude("old.bak"));
    assert!(!m.should_exclude("src"));
    assert!(m.lists("src", false));
    assert!(!m.lists(".env", false));
    assert!(m.lists(".env", true));
    assert!(!m.lists(".git", true));
    assert!(!m.lists("old.BAK", true));
    assert!(is_hidden_name(".x"));
    assert!(!is_hidden_name("x."));
    assert!(!is_hidden_name(""));
    assert!(within_depth(0, 0));
    assert!(within_depth(1, 1));
    assert!(!within_depth(2, 1));
    assert_eq!(listing_target("/w", ""), "/w");
    assert_eq!(listing_target("/w", "."), "/w");
    assert_eq!(listing_target("/w", "src"), "/w/src");
}

#[test]
fn entry_of_a_listing() {
    let facts = EntryFacts {
        is_dir: false,
        is_symlink: true,
        size: 42,
        modified: Some(at(7, 1)),
        created: None,
        children_count: Some(3),
    };
    let e = WorkspaceManager::collect_entries("/w", "/w/src/.Main.RS", ".Main.RS", &facts);
    assert_eq!(e.name, ".Main.RS");
    assert_eq!(e.path, "/w/src/.Main.RS");
    assert_eq!(e.relative_path, "src/.Main.RS");
    assert!(!e.is_dir && e.is_symlink && e.is_hidden);
    assert_eq!(e.size, 42);
    assert!(e.modified == Some(at(7, 1)) && e.created.is_none());
    assert_eq!(e.extension.as_deref(), Some("RS"));
    // only a directory has a number of entries
    assert_eq!(e.children_count, None);
    let dir = EntryFacts { is_dir: true, is_symlink: false, size: 0, modified: None, created: None, children_count: Some(3) };
    let e = WorkspaceManager::collect_entries("/w", "/w/src", "src", &dir);
    assert_eq!(e.children_count, Some(3));
    assert_eq!(e.extension, None);
    assert!(!e.is_hidden);
}

#[test]
fn extensions_as_the_file_system_sees_them() {
    for p in ["a.rs", "/x/y/a.tar.gz", ".gitignore", ".a.b", "noext", "trailing.", "/x.d/noext", "..", "/x/..", "a..b", ""] {
        let expected = std::path::Path::new(p).extension().map(|e| e.to_string_lossy().to_string());
        assert_eq!(extension_of_path(p), expected, "{:?}", p);
    }
}

#[test]
fn listing_order_is_directories_first_then_by_name() {
    let sorted = WorkspaceManager::list_directory(vec![
        entry("zeta.rs", false),
        entry("Alpha.rs", false),
        entry("src", true),
        entry("beta.rs", false),
        entry("Docs", true),
        entry("alpha.rs", false),
        entry("assets", true),
    ]);
    let names: Vec<&str> = sorted.iter().map(|e| e.name.as_str()).collect();
    assert_eq!(names, vec!["assets", "Docs", "src", "Alpha.rs", "alpha.rs", "beta.rs", "zeta.rs"]);
    assert!(WorkspaceManager::list_directory(Vec::new()).is_empty());
}

#[test]
fn file_stats() {
    let s = WorkspaceManager::get_file_stats("src/a.rs", 10, false, true, false, Some(at(1, 2)), None, Some(at(3, 4)));
    assert_eq!(s.path, "src/a.rs");
    assert_eq!(s.size, 10);
    assert!(!s.is_dir && s.is_file && !s.is_symlink);
    assert!(s.modified == Some(at(1, 2)) && s.created.is_none() && s.accessed == Some(at(3, 4)));
    assert_eq!(s.permissions, None);
    assert_eq!(s.extension.as_deref(), Some("rs"));
}
