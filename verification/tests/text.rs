use std::path::Path;
use vyotiq_backend::lang::{detect_language, language_of_lowercase};
use vyotiq_backend::paths::{extension, file_name, lies_within, make_relative, with_forward_slashes};
use vyotiq_backend::text::{
    byte_len, chars_le, chars_of, format_decimal, has_infix, has_prefix, has_suffix, is_whitespace,
    join_chars, parse_u64, parse_usize, split_chars, split_lines, trim,
};

fn chars(s: &str) -> Vec<char> {
    s.chars().collect()
}

fn text(v: &[char]) -> String {
    v.iter().collect()
}

fn texts(v: &[Vec<char>]) -> Vec<String> {
    v.iter().map(|l| l.iter().collect()).collect()
}

#[test]
fn detect_language_knows_the_table() {
    assert_eq!(detect_language("rs"), "rust");
    assert_eq!(detect_language("ts"), "typescript");
    assert_eq!(detect_language("tsx"), "typescript");
    assert_eq!(detect_language("mjs"), "javascript");
    assert_eq!(detect_language("pyi"), "python");
    assert_eq!(detect_language("hxx"), "cpp");
    assert_eq!(detect_language("h"), "c");
    assert_eq!(detect_language("sass"), "scss");
    assert_eq!(detect_language("rst"), "markdown");
    assert_eq!(detect_language("psd1"), "powershell");
    assert_eq!(detect_language("exs"), "elixir");
    assert_eq!(detect_language("env"), "dotenv");
    assert_eq!(detect_language("txt"), "plaintext");
}

#[test]
fn detect_language_ignores_case_and_falls_back() {
    assert_eq!(detect_language("RS"), "rust");
    assert_eq!(detect_language("Py"), "python");
    assert_eq!(detect_language("unknown"), "plaintext");
    assert_eq!(detect_language(""), "plaintext");
    assert_eq!(language_of_lowercase("RS"), "plaintext");
    assert_eq!(language_of_lowercase("rs"), "rust");
}

#[test]
fn chars_of_keeps_every_character() {
    assert_eq!(chars_of("héllo\n"), chars("héllo\n"));
    assert!(chars_of("").is_empty());
}

#[test]
fn byte_len_counts_utf8_bytes() {
    assert_eq!(byte_len(&chars("")), 0);
    assert_eq!(byte_len(&chars("abc")), 3);
    assert_eq!(byte_len(&chars("é")), 2);
    assert_eq!(byte_len(&chars("€")), 3);
    assert_eq!(byte_len(&chars("😀")), 4);
    let s = "a é € 😀";
    assert_eq!(byte_len(&chars(s)), s.len() as u128);
}

#[test]
fn prefixes_suffixes_infixes() {
    assert!(has_prefix(&chars("hello"), &chars("he")));
    assert!(has_prefix(&chars("hello"), &chars("")));
    assert!(!has_prefix(&chars("he"), &chars("hello")));
    assert!(has_suffix(&chars("hello"), &chars("llo")));
    assert!(!has_suffix(&chars("hello"), &chars("hel")));
    assert!(has_infix(&chars("hello"), &chars("ell")));
    assert!(has_infix(&chars("hello"), &chars("")));
    assert!(has_infix(&chars(""), &chars("")));
    assert!(has_infix(&chars("hello"), &chars("o")));
    assert!(!has_infix(&chars("hello"), &chars("world")));
    assert!(!has_infix(&chars(""), &chars("a")));
}

#[test]
fn split_gives_one_piece_more_than_separators() {
    assert_eq!(texts(&split_chars(&chars("a,b,,c"), ',')), vec!["a", "b", "", "c"]);
    assert_eq!(texts(&split_chars(&chars(""), ',')), vec![""]);
    assert_eq!(texts(&split_chars(&chars(","), ',')), vec!["", ""]);
    assert_eq!(texts(&split_chars(&chars("/a/b/"), '/')), vec!["", "a", "b", ""]);
}

#[test]
fn lines_as_the_standard_library_cuts_them() {
    for s in ["", "a", "a\n", "a\nb", "a\n\nb\n", "\n", "\n\n", "a\r\nb\r\n", "a\rb\r", "a\r\n\r\n", "\r\n", "x\r"] {
        let expected: Vec<String> = s.lines().map(|l| l.to_string()).collect();
        assert_eq!(texts(&split_lines(&chars(s))), expected, "{:?}", s);
    }
}

#[test]
fn join_puts_the_separator_between() {
    let parts = vec![chars("a"), chars(""), chars("bc")];
    assert_eq!(text(&join_chars(&parts, &chars(", "), 0, 3)), "a, , bc");
    assert_eq!(text(&join_chars(&parts, &chars(", "), 1, 3)), ", bc");
    assert_eq!(text(&join_chars(&parts, &chars(", "), 2, 3)), "bc");
    assert_eq!(text(&join_chars(&parts, &chars(", "), 1, 1)), "");
}

#[test]
fn numbers_are_read_as_the_standard_library_reads_them() {
    for s in ["0", "1", "42", "+42", "007", "18446744073709551615", "18446744073709551616", "", "+", "-1", " 1", "1 ", "1_000", "0x10", "++1", "１"] {
        assert_eq!(parse_u64(s), s.parse::<u64>().ok(), "{:?}", s);
        assert_eq!(parse_usize(s), s.parse::<usize>().ok(), "{:?}", s);
    }
}

#[test]
fn numbers_are_written_in_decimal() {
    assert_eq!(format_decimal(0), "0");
    assert_eq!(format_decimal(7), "7");
    assert_eq!(format_decimal(10), "10");
    assert_eq!(format_decimal(1001), "1001");
    assert_eq!(format_decimal(u64::MAX), "18446744073709551615");
}

#[test]
fn dictionary_order() {
    assert!(chars_le(&chars(""), &chars("")));
    assert!(chars_le(&chars(""), &chars("a")));
    assert!(!chars_le(&chars("a"), &chars("")));
    assert!(chars_le(&chars("abc"), &chars("abd")));
    assert!(chars_le(&chars("ab"), &chars("abc")));
    assert!(!chars_le(&chars("b"), &chars("abc")));
    assert!(chars_le(&chars("same"), &chars("same")));
    for (a, b) in [("z", "é"), ("apple", "Apple"), ("a", "b")] {
        assert_eq!(chars_le(&chars(a), &chars(b)), a <= b);
        assert_eq!(chars_le(&chars(b), &chars(a)), b <= a);
    }
}

#[test]
fn file_names_and_extensions() {
    assert_eq!(text(&file_name(&chars("/a/b/c.rs"))), "c.rs");
    assert_eq!(text(&file_name(&chars("c.rs"))), "c.rs");
    assert_eq!(text(&file_name(&chars("/a/b/"))), "");
    assert_eq!(text(&extension(&chars("/a/b/c.rs"))), "rs");
    assert_eq!(text(&extension(&chars("/a/b/c.tar.gz"))), "gz");
    assert_eq!(text(&extension(&chars("/a/b/.gitignore"))), "");
    assert_eq!(text(&extension(&chars("/a/b/.config.toml"))), "toml");
    assert_eq!(text(&extension(&chars("/a/b/Makefile"))), "");
    assert_eq!(text(&extension(&chars("/a.d/file"))), "");
    assert_eq!(text(&extension(&chars("file."))), "");
}

#[test]
fn containment_goes_by_whole_parts() {
    assert!(lies_within(&chars("/tmp/A"), &chars("/tmp/A")));
    assert!(lies_within(&chars("/tmp/A"), &chars("/tmp/A/src/main.rs")));
    assert!(lies_within(&chars("/tmp/A/"), &chars("/tmp/A/src")));
    assert!(lies_within(&chars("/"), &chars("/etc/passwd")));
    assert!(!lies_within(&chars("/tmp/A"), &chars("/tmp/AB")));
    assert!(!lies_within(&chars("/tmp/A"), &chars("/tmp/etc/passwd")));
    assert!(!lies_within(&chars("/tmp/A"), &chars("/tmp")));
    assert!(!lies_within(&chars("/tmp/A"), &chars("/etc/passwd")));
}

#[test]
fn relative_paths() {
    assert_eq!(text(&make_relative(&chars("/ws"), &chars("/ws/src/a.rs"))), "src/a.rs");
    assert_eq!(text(&make_relative(&chars("/ws/"), &chars("/ws/src/a.rs"))), "src/a.rs");
    assert_eq!(text(&make_relative(&chars("/ws"), &chars("/ws"))), "");
    assert_eq!(text(&make_relative(&chars("/ws"), &chars("/other/a.rs"))), "/other/a.rs");
    assert_eq!(text(&make_relative(&chars("/ws"), &chars("/wsx/a.rs"))), "/wsx/a.rs");
    assert_eq!(text(&with_forward_slashes(&chars("a\\b/c\\d"))), "a/b/c/d");
}

#[test]
fn paths_as_the_standard_library_sees_them() {
    let roots = ["/tmp/A", "/tmp/A/", "/", "/tmp", "/tmp/AB"];
    let paths = ["/tmp/A", "/tmp/A/x", "/tmp/A/x/y.rs", "/tmp/AB", "/tmp/AB/x", "/tmp", "/", "/etc/passwd", "/tmp/A.rs"];
    for root in roots {
        for path in paths {
            assert_eq!(
                lies_within(&chars(root), &chars(path)),
                Path::new(path).starts_with(root),
                "root {:?} path {:?}",
                root,
                path
            );
            let expected = Path::new(path).strip_prefix(root).unwrap_or(Path::new(path)).to_string_lossy().to_string();
            assert_eq!(text(&make_relative(&chars(root), &chars(path))), expected, "root {:?} path {:?}", root, path);
        }
    }
    for path in ["/a/b/c.rs", "c.rs", "/a/b.d/c", "/a/.hidden", "/a/b/archive.tar.gz", "/a/b/trailing."] {
        let p = Path::new(path);
        assert_eq!(text(&file_name(&chars(path))), p.file_name().unwrap().to_string_lossy());
        assert_eq!(text(&extension(&chars(path))), p.extension().unwrap_or_default().to_string_lossy());
    }
}

#[test]
fn whitespace_is_what_unicode_calls_so() {
    for n in 0u32..=0x11000 {
        if let Some(c) = char::from_u32(n) {
            assert_eq!(is_whitespace(c), c.is_whitespace(), "{:x}", n);
        }
    }
    assert!(!is_whitespace('\u{10ffff}'));
}

#[test]
fn trimming_takes_whitespace_from_both_ends() {
    assert_eq!(trim("  a b \t\n"), "a b");
    assert_eq!(trim(""), "");
    assert_eq!(trim(" \u{3000}\u{85} "), "");
    assert_eq!(trim("x"), "x");
    assert_eq!(trim("\u{200b} x \u{200b}"), "\u{200b} x \u{200b}");
    let pieces = ["", " ", "\t", "a", "é", "\u{a0}", "\u{2003}", "\u{feff}", "b c", "\r\n"];
    for a in pieces {
        for b in pieces {
            for c in pieces {
                let text = format!("{}{}{}", a, b, c);
                assert_eq!(trim(&text), text.trim(), "{:?}", text);
            }
        }
    }
}
