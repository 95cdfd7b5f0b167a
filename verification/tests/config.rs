use vyotiq_backend::config::{
    is_excluded_directory, is_supported_extension, matches_prepared_pattern,
    matches_user_exclude_patterns, AppConfig, RawSettings, EXCLUDED_DIRECTORY_NAMES,
    MAX_SEARCH_QUERY_LENGTH, SUPPORTED_EXTENSIONS,
};

fn raw() -> RawSettings {
    RawSettings {
        port: None,
        data_dir: None,
        local_data_dir: None,
        max_index_mb: None,
        max_file_size: None,
        watcher_debounce_ms: None,
        index_batch_size: None,
        max_indexed_files: None,
        exclude_patterns: None,
        include_patterns: None,
        enable_file_watcher: None,
    }
}

fn chars(s: &str) -> Vec<char> {
    s.chars().collect()
}

#[test]
fn supported_extensions_are_exact_and_lowercase() {
    assert!(is_supported_extension("rs"));
    assert!(is_supported_extension("tsx"));
    assert!(is_supported_extension("conf"));
    assert!(is_supported_extension("dockerfile"));
    assert!(!is_supported_extension("RS"));
    assert!(!is_supported_extension(""));
    assert!(!is_supported_extension("exe"));
    assert!(!is_supported_extension(".rs"));
    assert_eq!(SUPPORTED_EXTENSIONS.len(), 70);
    for ext in SUPPORTED_EXTENSIONS.iter() {
        assert!(is_supported_extension(ext));
    }
}

#[test]
fn excluded_directories_by_name_and_suffix() {
    assert!(is_excluded_directory("node_modules"));
    assert!(is_excluded_directory(".git"));
    assert!(is_excluded_directory(".cargo"));
    assert!(is_excluded_directory("foo.egg-info"));
    assert!(is_excluded_directory(".egg-info"));
    assert!(!is_excluded_directory("src"));
    assert!(!is_excluded_directory("Node_Modules"));
    assert!(!is_excluded_directory("egg-info"));
    assert!(!is_excluded_directory(""));
    assert_eq!(EXCLUDED_DIRECTORY_NAMES.len(), 36);
    for name in EXCLUDED_DIRECTORY_NAMES.iter() {
        assert!(is_excluded_directory(name));
    }
}

#[test]
fn user_patterns_exact_suffix_prefix() {
    let patterns = vec![
        "secret".to_string(),
        "*.log".to_string(),
        "tmp*".to_string(),
        "generated/**".to_string(),
        "cache/*".to_string(),
    ];
    assert!(matches_user_exclude_patterns("secret", &patterns));
    assert!(matches_user_exclude_patterns("SECRET", &patterns));
    assert!(matches_user_exclude_patterns("build.log", &patterns));
    assert!(matches_user_exclude_patterns("tmpfile", &patterns));
    assert!(matches_user_exclude_patterns("generated", &patterns));
    assert!(matches_user_exclude_patterns("cache", &patterns));
    assert!(!matches_user_exclude_patterns("secrets", &patterns));
    assert!(!matches_user_exclude_patterns("log", &patterns));
    assert!(!matches_user_exclude_patterns("atmp", &patterns));
    assert!(!matches_user_exclude_patterns("src", &patterns));
}

#[test]
fn user_patterns_are_trimmed_and_case_insensitive() {
    let patterns = vec!["   *.LOG  ".to_string(), "   ".to_string(), "".to_string()];
    assert!(matches_user_exclude_patterns("Build.Log", &patterns));
    assert!(!matches_user_exclude_patterns("", &vec!["   ".to_string()]));
    assert!(!matches_user_exclude_patterns("anything", &Vec::new()));
}

#[test]
fn lone_star_matches_everything() {
    assert!(matches_user_exclude_patterns("whatever", &vec!["*".to_string()]));
    assert!(matches_user_exclude_patterns("", &vec!["*".to_string()]));
}

#[test]
fn prepared_pattern_strips_repeated_directory_suffixes() {
    assert!(matches_prepared_pattern(&chars("dir"), &chars("dir/**/**")));
    // "/**" is stripped first and "/*" after it: "dir/**/*" is left as "dir/**".
    assert!(!matches_prepared_pattern(&chars("dir"), &chars("dir/**/*")));
    assert!(matches_prepared_pattern(&chars("dir"), &chars("dir/*/*")));
    assert!(matches_prepared_pattern(&chars("dir"), &chars("dir/*/**")));
    assert!(!matches_prepared_pattern(&chars("dir"), &chars("")));
    assert!(!matches_prepared_pattern(&chars("Dir"), &chars("dir")));
}

#[test]
fn settings_defaults() {
    let config = AppConfig::from_settings(&raw());
    assert_eq!(config.listen_addr, "127.0.0.1:9721");
    assert_eq!(config.data_dir, ".vyotiq-data");
    assert_eq!(config.max_index_size_mb, 512);
    assert_eq!(config.max_file_size_bytes, 2 * 1024 * 1024);
    assert_eq!(config.watcher_debounce_ms, 500);
    assert_eq!(config.index_batch_size, 50);
    assert_eq!(config.max_indexed_files, 50_000);
    assert!(config.exclude_patterns.is_empty());
    assert!(config.include_patterns.is_empty());
    assert!(config.enable_file_watcher);
    assert_eq!(MAX_SEARCH_QUERY_LENGTH, 1000);
}

#[test]
fn settings_read_what_is_written() {
    let mut r = raw();
    r.port = Some("8080".to_string());
    r.data_dir = Some("/var/data".to_string());
    r.local_data_dir = Some("/home/u/.local/share/vyotiq-backend".to_string());
    r.max_index_mb = Some("64".to_string());
    r.max_file_size = Some("1024".to_string());
    r.watcher_debounce_ms = Some("+250".to_string());
    r.index_batch_size = Some("007".to_string());
    r.max_indexed_files = Some("10".to_string());
    r.exclude_patterns = Some(" *.log , ,tmp*,,  secret  ".to_string());
    r.include_patterns = Some("src/**".to_string());
    r.enable_file_watcher = Some("FALSE".to_string());
    let config = AppConfig::from_settings(&r);
    assert_eq!(config.listen_addr, "127.0.0.1:8080");
    assert_eq!(config.data_dir, "/var/data");
    assert_eq!(config.max_index_size_mb, 64);
    assert_eq!(config.max_file_size_bytes, 1024);
    assert_eq!(config.watcher_debounce_ms, 250);
    assert_eq!(config.index_batch_size, 7);
    assert_eq!(config.max_indexed_files, 10);
    assert_eq!(config.exclude_patterns, vec!["*.log", "tmp*", "secret"]);
    assert_eq!(config.include_patterns, vec!["src/**"]);
    assert!(!config.enable_file_watcher);
}

#[test]
fn settings_fall_back_on_what_cannot_be_read() {
    let mut r = raw();
    r.local_data_dir = Some("/home/u/data".to_string());
    r.max_index_mb = Some("lots".to_string());
    r.max_file_size = Some("-1".to_string());
    r.watcher_debounce_ms = Some("".to_string());
    r.index_batch_size = Some(" 5".to_string());
    r.max_indexed_files = Some("99999999999999999999999999".to_string());
    r.enable_file_watcher = Some("0".to_string());
    let config = AppConfig::from_settings(&r);
    assert_eq!(config.data_dir, "/home/u/data");
    assert_eq!(config.max_index_size_mb, 512);
    assert_eq!(config.max_file_size_bytes, 2 * 1024 * 1024);
    assert_eq!(config.watcher_debounce_ms, 500);
    assert_eq!(config.index_batch_size, 50);
    assert_eq!(config.max_indexed_files, 50_000);
    assert!(!config.enable_file_watcher);
}

#[test]
fn watcher_stays_on_for_other_values() {
    for value in ["1", "true", "no", "", "off", "00"] {
        let mut r = raw();
        r.enable_file_watcher = Some(value.to_string());
        assert!(AppConfig::from_settings(&r).enable_file_watcher, "{}", value);
    }
    for value in ["0", "false", "False", "FALSE"] {
        let mut r = raw();
        r.enable_file_watcher = Some(value.to_string());
        assert!(!AppConfig::from_settings(&r).enable_file_watcher, "{}", value);
    }
}

/// The rule for the user's patterns, written with the string functions of
/// the standard library.
fn by_the_rule(name: &str, patterns: &[String]) -> bool {
    let name_lower = name.to_lowercase();
    for pattern in patterns {
        let p = pattern.trim().to_lowercase();
        if p.is_empty() {
            continue;
        }
        let dir_pattern = p.trim_end_matches("/**").trim_end_matches("/*");
        if name_lower == dir_pattern {
            return true;
        }
        if let Some(suffix) = p.strip_prefix('*') {
            if name_lower.ends_with(suffix) {
                return true;
            }
        }
        if let Some(prefix) = p.strip_suffix('*') {
            if name_lower.starts_with(prefix) {
                return true;
            }
        }
    }
    false
}

#[test]
fn user_patterns_follow_the_rule() {
    let names = ["", "a", "A.LOG", "build", "Build.Log", "tmp", "tmpfile", "x.tmp", "src", "*", "a/**", "dir", "DIR/*", ".env", "é.LOG"];
    let patterns = ["", " ", "*", "**", "*.log", "*.LOG ", "tmp*", " Tmp* ", "dir/**", "dir/*", "dir/**/*", "dir/*/**", "a", "*a*", "/**", "/*", "*/", "é*", "*É.log"];
    for name in names {
        for pattern in patterns {
            let list = vec![pattern.to_string()];
            assert_eq!(
                matches_user_exclude_patterns(name, &list),
                by_the_rule(name, &list),
                "name {:?} pattern {:?}",
                name,
                pattern
            );
        }
        let all: Vec<String> = patterns.iter().map(|p| p.to_string()).collect();
        assert_eq!(matches_user_exclude_patterns(name, &all), by_the_rule(name, &all));
    }
}
