use vyotiq_backend::collections::StringMap;
use vyotiq_backend::hashes::{classify, compute_content_hash};
use vyotiq_backend::symbols::{collect_symbols, extract_symbols, symbol_patterns};

fn catalog(pairs: &[(&str, &str)]) -> StringMap<String> {
    let mut m = StringMap::new();
    for (k, v) in pairs {
        m.insert(k.to_string(), v.to_string());
    }
    m
}

#[test]
fn content_hash_is_sha256_in_lowercase_hex() {
    assert_eq!(
        compute_content_hash(""),
        "e3b0c44298fc1c149afbf4c8996fb92427ae41e4649b934ca495991b7852b855"
    );
    assert_eq!(
        compute_content_hash("abc"),
        "ba7816bf8f01cfea414140de5dae2223b00361a396177a9cb410ff61f20015ad"
    );
    assert_eq!(compute_content_hash("fn foo(){}").len(), 64);
    assert_ne!(compute_content_hash("fn foo(){}"), compute_content_hash("fn baz(){}"));
}

#[test]
fn string_map_keeps_first_insertion_order() {
    let mut m: StringMap<u32> = StringMap::new();
    assert_eq!(m.len(), 0);
    assert_eq!(m.insert("b".to_string(), 1), None);
    assert_eq!(m.insert("a".to_string(), 2), None);
    assert_eq!(m.insert("b".to_string(), 3), Some(1));
    assert_eq!(m.len(), 2);
    assert_eq!(m.key_at(0), "b");
    assert_eq!(m.key_at(1), "a");
    assert_eq!(m.get("b"), Some(&3));
    assert_eq!(m.get("a"), Some(&2));
    assert_eq!(m.get("c"), None);
    assert!(m.contains_key("a"));
    assert_eq!(m.remove("b"), Some(3));
    assert_eq!(m.remove("b"), None);
    assert_eq!(m.len(), 1);
    assert_eq!(m.key_at(0), "a");
    assert_eq!(*m.value_at(0), 2);
    assert_eq!(m.position("a"), Some(0));
    assert_eq!(m.position("b"), None);
}

#[test]
fn classify_tells_new_changed_unchanged_removed() {
    let existing = catalog(&[("/w/a.rs", "h1"), ("/w/b.rs", "h2"), ("/w/gone.rs", "h3")]);
    let current = catalog(&[("/w/new.rs", "h9"), ("/w/a.rs", "h1"), ("/w/b.rs", "changed")]);
    let r = classify(&existing, &current);
    assert_eq!(r.to_index, vec!["/w/new.rs", "/w/b.rs"]);
    assert_eq!(r.positions, vec![0, 2]);
    assert_eq!(r.rewritten, vec!["/w/b.rs"]);
    assert_eq!(r.to_remove, vec!["/w/gone.rs"]);
    assert_eq!(r.unchanged, 1);
    assert!(!r.nothing_to_do());
}

#[test]
fn classify_same_scan_is_a_noop() {
    let existing = catalog(&[("/w/a.rs", "h1"), ("/w/b.rs", "h2")]);
    let current = catalog(&[("/w/b.rs", "h2"), ("/w/a.rs", "h1")]);
    let r = classify(&existing, &current);
    assert!(r.to_index.is_empty());
    assert!(r.to_remove.is_empty());
    assert!(r.rewritten.is_empty());
    assert_eq!(r.unchanged, 2);
    assert!(r.nothing_to_do());
}

#[test]
fn classify_against_nothing_indexes_everything() {
    let r = classify(&StringMap::new(), &catalog(&[("/w/a.rs", "h1"), ("/w/b.rs", "h2")]));
    assert_eq!(r.to_index, vec!["/w/a.rs", "/w/b.rs"]);
    assert!(r.to_remove.is_empty());
    assert_eq!(r.unchanged, 0);
    let r = classify(&catalog(&[("/w/a.rs", "h1")]), &StringMap::new());
    assert!(r.to_index.is_empty());
    assert_eq!(r.to_remove, vec!["/w/a.rs"]);
    let r = classify(&StringMap::new(), &StringMap::new());
    assert!(r.nothing_to_do());
}

#[test]
fn symbols_of_rust() {
    let src = "pub fn alpha() {}\nstruct Beta;\nenum Gamma {}\n    fn nested() {}\nimpl Beta {}\npub(crate) async fn delta() {}\ntrait T {}\ntype Alias = u8;\n";
    assert_eq!(extract_symbols(src, "rust"), "alpha delta Beta Gamma Alias");
}

#[test]
fn symbols_of_python_and_typescript() {
    assert_eq!(extract_symbols("def foo():\n    pass\nclass Bar:\n    def baz(self): pass\nasync def qux(): pass\n", "python"), "foo qux Bar");
    assert_eq!(
        extract_symbols("export function run() {}\nclass Engine {}\nexport const LIMIT = 3;\ninterface Shape {}\n", "typescript"),
        "run Engine Shape LIMIT"
    );
    assert_eq!(extract_symbols("func (s *Server) Start() {}\ntype Server struct {}\n", "go"), "Start Server");
}

#[test]
fn symbols_drop_short_names_and_repetitions() {
    assert_eq!(extract_symbols("fn a() {}\nfn ab() {}\nfn ab() {}\nstruct ab;\n", "rust"), "ab");
    assert_eq!(extract_symbols("fn foo() {}", "plaintext"), "");
    assert_eq!(extract_symbols("fn foo() {}", ""), "");
    assert_eq!(extract_symbols("", "rust"), "");
}

#[test]
fn collect_symbols_joins_distinct_names() {
    let names: Vec<String> = ["foo", "x", "bar", "foo", "é", "éé", "bar"].iter().map(|s| s.to_string()).collect();
    assert_eq!(collect_symbols(&names), "foo bar éé");
    assert_eq!(collect_symbols(&Vec::new()), "");
}

#[test]
fn symbol_patterns_by_family() {
    assert_eq!(symbol_patterns("typescript").len(), 6);
    assert_eq!(symbol_patterns("javascript").len(), 6);
    assert_eq!(symbol_patterns("rust").len(), 6);
    assert_eq!(symbol_patterns("python").len(), 2);
    assert_eq!(symbol_patterns("go").len(), 2);
    assert_eq!(symbol_patterns("kotlin").len(), 4);
    assert_eq!(symbol_patterns("csharp").len(), 4);
    assert_eq!(symbol_patterns("ruby").len(), 3);
    assert_eq!(symbol_patterns("php").len(), 4);
    assert!(symbol_patterns("markdown").is_empty());
}

#[test]
fn string_map_with_many_keys() {
    let mut m: StringMap<usize> = StringMap::new();
    for i in 0..3000usize {
        assert_eq!(m.insert(format!("/workspace/src/module_{}/file_{}.rs", i % 37, i), i), None);
    }
    assert_eq!(m.len(), 3000);
    for i in 0..3000usize {
        let key = format!("/workspace/src/module_{}/file_{}.rs", i % 37, i);
        assert_eq!(m.get(&key), Some(&i));
        assert_eq!(m.position(&key), Some(i));
    }
    assert_eq!(m.get("/workspace/src/module_0/file_3000.rs"), None);
    // every third key goes
    for i in (0..3000usize).step_by(3) {
        let key = format!("/workspace/src/module_{}/file_{}.rs", i % 37, i);
        assert_eq!(m.remove(&key), Some(i));
    }
    assert_eq!(m.len(), 2000);
    for i in 0..3000usize {
        let key = format!("/workspace/src/module_{}/file_{}.rs", i % 37, i);
        if i % 3 == 0 {
            assert!(!m.contains_key(&key));
        } else {
            assert_eq!(m.get(&key), Some(&i));
        }
    }
    // the keys that stayed are in the order in which they came
    let order: Vec<usize> = (0..m.len()).map(|p| *m.value_at(p)).collect();
    let expected: Vec<usize> = (0..3000usize).filter(|i| i % 3 != 0).collect();
    assert_eq!(order, expected);
    assert_eq!(m.insert("/workspace/src/module_1/file_1.rs".to_string(), 7), Some(1));
    assert_eq!(m.get("/workspace/src/module_1/file_1.rs"), Some(&7));
}
