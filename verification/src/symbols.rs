//! Names of the top-level declarations of a source file.
//!
//! Each language family has a fixed list of patterns; the first group of
//! every match is a name. The names go into the lexical index as one text.

use crate::collections::string_views;
use crate::text::{chars_of, join, join_chars, str_eq, string_from_chars, texts};
use vstd::prelude::*;

verus! {

/// Declarations of TypeScript and JavaScript.
pub const TS_JS_PATTERNS: [&'static str; 6] = [
    r"(?m)^(?:export\s+)?(?:async\s+)?function\s+(\w+)",
    r"(?m)^(?:export\s+)?class\s+(\w+)",
    r"(?m)^(?:export\s+)?interface\s+(\w+)",
    r"(?m)^(?:export\s+)?type\s+(\w+)",
    r"(?m)^(?:export\s+)?enum\s+(\w+)",
    r"(?m)^(?:export\s+)?const\s+(\w+)\s*[:=]",
];

/// Declarations of Rust.
pub const RUST_PATTERNS: [&'static str; 6] = [
    r"(?m)^(?:pub(?:\([\w:]+\))?\s+)?(?:async\s+)?fn\s+(\w+)",
    r"(?m)^(?:pub(?:\([\w:]+\))?\s+)?struct\s+(\w+)",
    r"(?m)^(?:pub(?:\([\w:]+\))?\s+)?enum\s+(\w+)",
    r"(?m)^(?:pub(?:\([\w:]+\))?\s+)?trait\s+(\w+)",
    r"(?m)^(?:pub(?:\([\w:]+\))?\s+)?type\s+(\w+)",
    r"(?m)^impl(?:<[^>]*>)?\s+(\w+)",
];

/// Declarations of Python.
pub const PYTHON_PATTERNS: [&'static str; 2] = [
    r"(?m)^(?:async\s+)?def\s+(\w+)",
    r"(?m)^class\s+(\w+)",
];

/// Declarations of Go.
pub const GO_PATTERNS: [&'static str; 2] = [
    r"(?m)^func\s+(?:\([^)]+\)\s+)?(\w+)",
    r"(?m)^type\s+(\w+)\s+(?:struct|interface)",
];

/// Declarations of Java, Kotlin and Scala.
pub const JAVA_PATTERNS: [&'static str; 4] = [
    r"(?m)(?:public|private|protected)?\s*(?:static\s+)?(?:abstract\s+)?class\s+(\w+)",
    r"(?m)(?:public|private|protected)?\s*interface\s+(\w+)",
    r"(?m)(?:public|private|protected)?\s*enum\s+(\w+)",
    r"(?m)(?:public|private|protected)?\s*(?:static\s+)?(?:final\s+)?(?:abstract\s+)?(?:synchronized\s+)?[\w<>\[\]]+\s+(\w+)\s*\(",
];

/// Declarations of C, C++ and C#.
pub const C_CPP_PATTERNS: [&'static str; 4] = [
    r"(?m)^(?:static\s+)?(?:inline\s+)?(?:virtual\s+)?(?:[\w:*&<>]+\s+)+(\w+)\s*\(",
    r"(?m)^(?:class|struct)\s+(\w+)",
    r"(?m)^enum\s+(?:class\s+)?(\w+)",
    r"(?m)^namespace\s+(\w+)",
];

/// Declarations of Ruby.
pub const RUBY_PATTERNS: [&'static str; 3] = [
    r"(?m)^\s*def\s+(?:self\.)?(\w+[?!]?)",
    r"(?m)^\s*class\s+(\w+)",
    r"(?m)^\s*module\s+(\w+)",
];

/// Declarations of PHP.
pub const PHP_PATTERNS: [&'static str; 4] = [
    r"(?m)(?:public|private|protected)?\s*(?:static\s+)?function\s+(\w+)",
    r"(?m)(?:abstract\s+)?class\s+(\w+)",
    r"(?m)interface\s+(\w+)",
    r"(?m)trait\s+(\w+)",
];

/// The patterns of the family that a language tag belongs to; none for a
/// language without patterns.
pub open spec fn patterns_of(language: Seq<char>) -> Seq<&'static str> {
    if language == "typescript"@ || language == "javascript"@ {
        TS_JS_PATTERNS@
    } else if language == "rust"@ {
        RUST_PATTERNS@
    } else if language == "python"@ {
        PYTHON_PATTERNS@
    } else if language == "go"@ {
        GO_PATTERNS@
    } else if language == "java"@ || language == "kotlin"@ || language == "scala"@ {
        JAVA_PATTERNS@
    } else if language == "c"@ || language == "cpp"@ || language == "csharp"@ {
        C_CPP_PATTERNS@
    } else if language == "ruby"@ {
        RUBY_PATTERNS@
    } else if language == "php"@ {
        PHP_PATTERNS@
    } else {
        seq![]
    }
}

fn copy_patterns(list: &[&'static str]) -> (out: Vec<&'static str>)
    ensures
        out@ == list@,
{
    let mut out: Vec<&'static str> = Vec::new();
    let mut i: usize = 0;
    while i < list.len()
        invariant
            i <= list.len(),
            out@ == list@.take(i as int),
        decreases list.len() - i,
    {
        out.push(list[i]);
        assert(list@.take(i + 1) =~= list@.take(i as int).push(list@[i as int]));
        i += 1;
    }
    assert(list@.take(i as int) =~= list@);
    out
}

/// The patterns for a language tag.
pub fn symbol_patterns(language: &str) -> (out: Vec<&'static str>)
    ensures
        out@ == patterns_of(language@),
{
    if str_eq(language, "typescript") || str_eq(language, "javascript") {
        copy_patterns(TS_JS_PATTERNS.as_slice())
    } else if str_eq(language, "rust") {
        copy_patterns(RUST_PATTERNS.as_slice())
    } else if str_eq(language, "python") {
        copy_patterns(PYTHON_PATTERNS.as_slice())
    } else if str_eq(language, "go") {
        copy_patterns(GO_PATTERNS.as_slice())
    } else if str_eq(language, "java") || str_eq(language, "kotlin") || str_eq(language, "scala") {
        copy_patterns(JAVA_PATTERNS.as_slice())
    } else if str_eq(language, "c") || str_eq(language, "cpp") || str_eq(language, "csharp") {
        copy_patterns(C_CPP_PATTERNS.as_slice())
    } else if str_eq(language, "ruby") {
        copy_patterns(RUBY_PATTERNS.as_slice())
    } else if str_eq(language, "php") {
        copy_patterns(PHP_PATTERNS.as_slice())
    } else {
        Vec::new()
    }
}

/// Whether the regex engine accepts `pattern`: whether `regex::Regex::new`
/// makes a regex of it.
pub uninterp spec fn regex_accepts(pattern: Seq<char>) -> bool;

/// What the first group of `pattern`, which the regex engine accepts, took
/// in each match that the engine finds in `text`, going through the text
/// from left to right without overlap; `None` for a match in which the
/// group took no part.
pub uninterp spec fn regex_first_groups(pattern: Seq<char>, text: Seq<char>) -> Seq<Option<Seq<char>>>;

/// The texts of what groups took.
pub open spec fn group_views(groups: Seq<Option<String>>) -> Seq<Option<Seq<char>>> {
    groups.map_values(
        |g: Option<String>|
            match g {
                Some(name) => Some(name@),
                None => None,
            },
    )
}

/// `regex::Regex::new` on `pattern`, then `Regex::captures_iter` on `text`
/// with `Captures::get(1)` of each match: the result is what the first group
/// took in each match, in the order of the matches. `None` exactly if the
/// pattern is not accepted.
#[verifier::external_body]
fn first_groups(pattern: &str, text: &str) -> (r: Option<Vec<Option<String>>>)
    ensures
        r is Some == regex_accepts(pattern@),
        r matches Some(groups) ==> group_views(groups@) == regex_first_groups(pattern@, text@),
{
    match regex::Regex::new(pattern) {
        Ok(re) => Some(
            re.captures_iter(text).map(|c| c.get(1).map(|m| m.as_str().to_string())).collect(),
        ),
        Err(_) => None,
    }
}

/// What the groups took in the first `count` matches, without the matches
/// in which the group took no part.
pub open spec fn taking_part(groups: Seq<Option<Seq<char>>>, count: int) -> Seq<Seq<char>>
    decreases count,
{
    if count <= 0 {
        seq![]
    } else {
        match groups[count - 1] {
            Some(name) => taking_part(groups, count - 1).push(name),
            None => taking_part(groups, count - 1),
        }
    }
}

/// What one pattern captures in `content`: nothing, if the regex engine
/// does not accept it.
pub open spec fn captured(pattern: Seq<char>, content: Seq<char>) -> Seq<Seq<char>> {
    if regex_accepts(pattern) {
        let groups = regex_first_groups(pattern, content);
        taking_part(groups, groups.len() as int)
    } else {
        seq![]
    }
}

/// What the first `count` patterns capture in `content`, pattern after
/// pattern.
pub open spec fn captured_by(patterns: Seq<&'static str>, content: Seq<char>, count: int) -> Seq<
    Seq<char>,
>
    decreases count,
{
    if count <= 0 {
        seq![]
    } else {
        captured_by(patterns, content, count - 1) + captured(patterns[count - 1]@, content)
    }
}

/// The first `count` names without those shorter than two characters and
/// without repetitions, each where it first occurs.
pub open spec fn distinct_names(names: Seq<Seq<char>>, count: int) -> Seq<Seq<char>>
    decreases count,
{
    if count <= 0 {
        seq![]
    } else {
        let before = distinct_names(names, count - 1);
        let name = names[count - 1];
        if name.len() >= 2 && !before.contains(name) {
            before.push(name)
        } else {
            before
        }
    }
}

/// The symbol text of a list of captured names: the distinct names of two
/// characters or more, with a space between each two.
pub open spec fn symbol_text(names: Seq<Seq<char>>) -> Seq<char> {
    join(distinct_names(names, names.len() as int), seq![' '])
}

fn holds(list: &Vec<Vec<char>>, name: &Vec<char>) -> (r: bool)
    ensures
        r == texts(list@).contains(name@),
{
    let mut i: usize = 0;
    while i < list.len()
        invariant
            i <= list.len(),
            forall|j: int| 0 <= j < i ==> texts(list@)[j] != name@,
        decreases list.len() - i,
    {
        if crate::text::chars_eq(list[i].as_slice(), name.as_slice()) {
            assert(texts(list@)[i as int] == name@);
            return true;
        }
        i += 1;
    }
    false
}

/// The symbol text of captured names.
pub fn collect_symbols(names: &Vec<String>) -> (out: String)
    ensures
        out@ == symbol_text(string_views(names@)),
{
    let mut kept: Vec<Vec<char>> = Vec::new();
    let mut i: usize = 0;
    assert(texts(kept@) =~= seq![]);
    while i < names.len()
        invariant
            i <= names.len(),
            texts(kept@) == distinct_names(string_views(names@), i as int),
        decreases names.len() - i,
    {
        let name = chars_of(names[i].as_str());
        assert(string_views(names@)[i as int] == name@);
        if name.len() >= 2 && !holds(&kept, &name) {
            let ghost before = kept@;
            kept.push(name);
            assert(texts(kept@) =~= texts(before).push(name@));
        }
        i += 1;
    }
    let sep: Vec<char> = vec![' '];
    assert(sep@ =~= seq![' ']);
    let joined = join_chars(&kept, sep.as_slice(), 0, kept.len());
    string_from_chars(joined.as_slice())
}

/// The names of the top-level declarations of `content`, a source text in
/// the language `language`, as one text with spaces between the names. Empty
/// for a language without patterns. Every call hands the patterns to the
/// regex engine anew.
pub fn extract_symbols(content: &str, language: &str) -> (out: String)
    ensures
        out@ == symbol_text(
            captured_by(patterns_of(language@), content@, patterns_of(language@).len() as int),
        ),
{
    let patterns = symbol_patterns(language);
    let mut names: Vec<String> = Vec::new();
    let mut i: usize = 0;
    assert(string_views(names@) =~= seq![]);
    while i < patterns.len()
        invariant
            i <= patterns.len(),
            patterns@ == patterns_of(language@),
            string_views(names@) == captured_by(patterns@, content@, i as int),
        decreases patterns.len() - i,
    {
        match first_groups(patterns[i], content) {
            Some(found) => {
                let mut k: usize = 0;
                let ghost start = names@;
                let ghost groups = group_views(found@);
                assert(string_views(names@) + taking_part(groups, 0) =~= string_views(names@));
                while k < found.len()
                    invariant
                        k <= found.len(),
                        groups == group_views(found@),
                        string_views(names@) == string_views(start) + taking_part(groups, k as int),
                    decreases found.len() - k,
                {
                    let ghost before = names@;
                    match &found[k] {
                        Some(name) => {
                            names.push(name.clone());
                            assert(groups[k as int] == Some(name@));
                            assert(string_views(names@) =~= string_views(before).push(name@));
                            assert(string_views(start) + taking_part(groups, k as int).push(name@)
                                =~= (string_views(start) + taking_part(groups, k as int)).push(
                                name@,
                            ));
                        },
                        None => {
                            assert(groups[k as int] is None);
                        },
                    }
                    k += 1;
                }
                assert(groups.len() == found.len());
            },
            None => {
                assert(string_views(names@) + Seq::<Seq<char>>::empty() =~= string_views(names@));
            },
        }
        i += 1;
    }
    collect_symbols(&names)
}

} // verus!
