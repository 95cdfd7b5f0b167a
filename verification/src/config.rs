//! Settings of the service and the fixed lists that decide what is indexed.

use crate::text::{
    chars_of, chars_eq, copy_range, ends_with, has_prefix, has_suffix, lowercase, split, split_chars,
    starts_with, str_eq, string_from_chars, texts, to_lowercase, trim, trimmed,
};
use vstd::prelude::*;
use vstd::string::StringExecFns;

verus! {

/// Longest search query or grep pattern that is accepted, in characters.
pub const MAX_SEARCH_QUERY_LENGTH: usize = 1000;

/// File extensions that are indexed, lowercase and without the dot. The
/// lexical and the vector index share this list.
pub const SUPPORTED_EXTENSIONS: [&'static str; 70] = [
    "ts", "tsx", "js", "jsx", "mjs", "cjs",
    "rs", "py", "go", "java", "c", "cpp", "h", "hpp",
    "cs", "rb", "php", "swift", "kt", "scala",
    "html", "css", "scss", "less", "sass",
    "json", "yaml", "yml", "toml", "xml",
    "md", "mdx", "txt", "rst",
    "sql", "graphql", "gql",
    "sh", "bash", "zsh", "fish", "ps1", "bat", "cmd",
    "dockerfile", "makefile",
    "vue", "svelte", "astro",
    "lua", "zig", "nim", "dart", "elixir", "ex", "exs",
    "r", "jl", "clj", "cljs", "cljc", "erl", "hrl",
    "tf", "hcl", "proto",
    "env", "ini", "cfg", "conf",
];

/// Directory names that are never indexed, walked or listed.
pub const EXCLUDED_DIRECTORY_NAMES: [&'static str; 36] = [
    "node_modules", ".git", "target", "dist", "build", "out",
    ".next", ".nuxt", ".output", ".vite", ".turbo", ".svelte-kit",
    ".parcel-cache", "__pycache__", ".tox", ".mypy_cache", ".pytest_cache", ".ruff_cache",
    "coverage", ".nyc_output", ".cache", "vendor", ".gradle", ".maven",
    ".terraform", ".eggs", ".vscode", ".idea", ".angular", ".expo",
    ".vercel", ".netlify", ".serverless", ".aws-sam", "__generated__", ".cargo",
];

/// `text` is one of `names`.
pub open spec fn listed(names: Seq<&'static str>, text: Seq<char>) -> bool {
    exists|i: int| 0 <= i < names.len() && names[i]@ == text
}

/// Whether `text` is one of `names`.
pub fn is_listed(names: &[&'static str], text: &str) -> (r: bool)
    ensures
        r == listed(names@, text@),
{
    let mut i: usize = 0;
    while i < names.len()
        invariant
            i <= names.len(),
            forall|j: int| 0 <= j < i ==> names@[j]@ != text@,
        decreases names.len() - i,
    {
        if str_eq(names[i], text) {
            return true;
        }
        i += 1;
    }
    false
}

/// `ext` is on the list of indexed extensions.
pub open spec fn supported_extension(ext: Seq<char>) -> bool {
    listed(SUPPORTED_EXTENSIONS@, ext)
}

/// Whether `ext`, given lowercase and without a dot, is an indexed
/// extension.
pub fn is_supported_extension(ext: &str) -> (r: bool)
    ensures
        r == supported_extension(ext@),
{
    is_listed(SUPPORTED_EXTENSIONS.as_slice(), ext)
}

/// A directory of this name is left out: it is on the fixed list or ends
/// in `.egg-info`.
pub open spec fn excluded_directory(name: Seq<char>) -> bool {
    listed(EXCLUDED_DIRECTORY_NAMES@, name) || ends_with(name, ".egg-info"@)
}

/// Whether a directory of this name is left out: it is on the fixed list or
/// ends in `.egg-info`.
pub fn is_excluded_directory(name: &str) -> (r: bool)
    ensures
        r == excluded_directory(name@),
{
    if is_listed(EXCLUDED_DIRECTORY_NAMES.as_slice(), name) {
        return true;
    }
    let chars = chars_of(name);
    let suffix = chars_of(".egg-info");
    has_suffix(chars.as_slice(), suffix.as_slice())
}

// ---------------------------------------------------------------------------
// User patterns
// ---------------------------------------------------------------------------

/// `s` without any number of trailing `suffix`.
pub open spec fn without_trailing(s: Seq<char>, suffix: Seq<char>) -> Seq<char>
    decreases s.len(),
{
    if suffix.len() > 0 && ends_with(s, suffix) {
        without_trailing(s.subrange(0, s.len() - suffix.len()), suffix)
    } else {
        s
    }
}

/// Whether a lowercase name meets a pattern that was trimmed and made
/// lowercase: an empty pattern meets nothing; otherwise the name is the
/// pattern without its trailing `/**` and `/*`, or the pattern starts with
/// `*` and the name ends with the rest, or the pattern ends with `*` and the
/// name starts with what stands before.
pub open spec fn pattern_admits(name: Seq<char>, pattern: Seq<char>) -> bool {
    pattern.len() > 0 && {
        ||| name == without_trailing(without_trailing(pattern, "/**"@), "/*"@)
        ||| pattern[0] == '*' && ends_with(name, pattern.skip(1))
        ||| pattern.last() == '*' && starts_with(name, pattern.drop_last())
    }
}

/// Whether a name meets a pattern as the user wrote it: both are compared in
/// lowercase, the pattern without the whitespace around it.
pub open spec fn user_pattern_admits(name: Seq<char>, pattern: Seq<char>) -> bool {
    pattern_admits(lowercase(name), lowercase(trimmed(pattern)))
}

/// `name` meets one of the user's patterns.
pub open spec fn matches_user_patterns(name: Seq<char>, patterns: Seq<Seq<char>>) -> bool {
    exists|i: int| 0 <= i < patterns.len() && user_pattern_admits(name, patterns[i])
}

/// The length that `s` has once every trailing `suffix` is gone.
fn length_without_trailing(s: &[char], len: usize, suffix: &[char]) -> (n: usize)
    requires
        len <= s.len(),
    ensures
        n <= len,
        s@.subrange(0, n as int) == without_trailing(s@.subrange(0, len as int), suffix@),
{
    let mut n: usize = len;
    if suffix.len() == 0 {
        return n;
    }
    while n >= suffix.len()
        invariant
            n <= len <= s.len(),
            suffix.len() > 0,
            without_trailing(s@.subrange(0, len as int), suffix@) == without_trailing(
                s@.subrange(0, n as int),
                suffix@,
            ),
        decreases n,
    {
        let head = copy_range(s, 0, n);
        if !has_suffix(head.as_slice(), suffix) {
            return n;
        }
        assert(s@.subrange(0, n as int).subrange(0, n - suffix.len()) =~= s@.subrange(
            0,
            n - suffix.len(),
        ));
        n = n - suffix.len();
    }
    n
}

/// Whether the lowercase `name` meets `pattern`, a pattern that was trimmed
/// and made lowercase.
pub fn matches_prepared_pattern(name: &[char], pattern: &[char]) -> (r: bool)
    ensures
        r == pattern_admits(name@, pattern@),
{
    if pattern.len() == 0 {
        return false;
    }
    let deep = chars_of("/**");
    let flat = chars_of("/*");
    let n1 = length_without_trailing(pattern, pattern.len(), deep.as_slice());
    assert(pattern@.subrange(0, pattern.len() as int) =~= pattern@);
    let n2 = length_without_trailing(pattern, n1, flat.as_slice());
    let dir = copy_range(pattern, 0, n2);
    if chars_eq(name, dir.as_slice()) {
        return true;
    }
    if pattern[0] == '*' {
        let rest = copy_range(pattern, 1, pattern.len());
        assert(rest@ =~= pattern@.skip(1));
        if has_suffix(name, rest.as_slice()) {
            return true;
        }
    }
    if pattern[pattern.len() - 1] == '*' {
        let rest = copy_range(pattern, 0, pattern.len() - 1);
        assert(rest@ =~= pattern@.drop_last());
        if has_prefix(name, rest.as_slice()) {
            return true;
        }
    }
    false
}

/// Whether `name` meets one of the user's exclusion patterns.
pub fn matches_user_exclude_patterns(name: &str, patterns: &[String]) -> (r: bool)
    ensures
        r == matches_user_patterns(name@, crate::collections::string_views(patterns@)),
{
    let lowered = to_lowercase(name);
    let name_chars = chars_of(lowered.as_str());
    let mut i: usize = 0;
    while i < patterns.len()
        invariant
            i <= patterns.len(),
            name_chars@ == lowercase(name@),
            forall|j: int| 0 <= j < i ==> !user_pattern_admits(name@, (#[trigger] patterns@[j])@),
        decreases patterns.len() - i,
    {
        let prepared = to_lowercase(trim(patterns[i].as_str()).as_str());
        let pattern_chars = chars_of(prepared.as_str());
        if matches_prepared_pattern(name_chars.as_slice(), pattern_chars.as_slice()) {
            assert(crate::collections::string_views(patterns@)[i as int] == patterns@[i as int]@);
            return true;
        }
        i += 1;
    }
    assert forall|j: int| 0 <= j < patterns.len() implies !user_pattern_admits(
        name@,
        #[trigger] crate::collections::string_views(patterns@)[j],
    ) by {
        assert(crate::collections::string_views(patterns@)[j] == patterns@[j]@);
    }
    false
}

// ---------------------------------------------------------------------------
// Settings
// ---------------------------------------------------------------------------

/// The settings of the service.
pub struct AppConfig {
    pub listen_addr: String,
    pub max_index_size_mb: usize,
    pub max_file_size_bytes: usize,
    pub watcher_debounce_ms: u64,
    pub index_batch_size: usize,
    pub data_dir: String,
    /// Most files that are indexed for one workspace.
    pub max_indexed_files: usize,
    /// Patterns of files and directories that are left out.
    pub exclude_patterns: Vec<String>,
    /// Patterns of files to take in; none means all.
    pub include_patterns: Vec<String>,
    /// No watcher is started when this is false.
    pub enable_file_watcher: bool,
}

/// The settings as they were written down, each absent or a text.
pub struct RawSettings {
    pub port: Option<String>,
    pub data_dir: Option<String>,
    /// Where this platform keeps the service's data, if it has such a place.
    pub local_data_dir: Option<String>,
    pub max_index_mb: Option<String>,
    pub max_file_size: Option<String>,
    pub watcher_debounce_ms: Option<String>,
    pub index_batch_size: Option<String>,
    pub max_indexed_files: Option<String>,
    pub exclude_patterns: Option<String>,
    pub include_patterns: Option<String>,
    pub enable_file_watcher: Option<String>,
}

/// The port on which the service listens if none is set.
pub const DEFAULT_PORT: &'static str = "9721";

/// The service listens on the loopback address alone.
pub const LISTEN_HOST: &'static str = "127.0.0.1:";

/// Where the data is kept if no directory is set and the platform names
/// none.
pub const FALLBACK_DATA_DIR: &'static str = ".vyotiq-data";

/// Largest size of an index in megabytes, if none is set.
pub const DEFAULT_MAX_INDEX_MB: usize = 512;

/// Largest file that is indexed, in bytes, if no size is set: 2 MiB.
pub const DEFAULT_MAX_FILE_SIZE: usize = 2097152;

/// Milliseconds in which changes are gathered, if none are set.
pub const DEFAULT_WATCHER_DEBOUNCE_MS: u64 = 500;

/// Documents between two progress events, if no number is set.
pub const DEFAULT_INDEX_BATCH_SIZE: usize = 50;

/// Most files that are indexed for one workspace, if no number is set.
pub const DEFAULT_MAX_INDEXED_FILES: usize = 50000;

/// A text setting: what is written, or `fallback` where nothing is.
pub open spec fn text_or(value: Option<String>, fallback: Seq<char>) -> Seq<char> {
    match value {
        Some(v) => v@,
        None => fallback,
    }
}

/// A size setting: the number written, or `fallback` where nothing is
/// written or what is written is no number that fits.
pub open spec fn usize_or(value: Option<String>, fallback: usize) -> usize {
    match value {
        Some(v) => match crate::text::parsed_usize(v@) {
            Some(n) => n,
            None => fallback,
        },
        None => fallback,
    }
}

/// A number setting: the number written, or `fallback` where nothing is
/// written or what is written is no number that fits.
pub open spec fn u64_or(value: Option<String>, fallback: u64) -> u64 {
    match value {
        Some(v) => match crate::text::parsed_u64(v@) {
            Some(n) => n,
            None => fallback,
        },
        None => fallback,
    }
}

/// The patterns among the first `count` pieces: each piece trimmed, the
/// empty ones left out.
pub open spec fn patterns_among(pieces: Seq<Seq<char>>, count: int) -> Seq<Seq<char>>
    decreases count,
{
    if count <= 0 {
        seq![]
    } else {
        let before = patterns_among(pieces, count - 1);
        let piece = trimmed(pieces[count - 1]);
        if piece.len() > 0 {
            before.push(piece)
        } else {
            before
        }
    }
}

/// The patterns that a comma-separated list names.
pub open spec fn pattern_list(value: Option<String>) -> Seq<Seq<char>> {
    match value {
        Some(v) => patterns_among(split(v@, ','), split(v@, ',').len() as int),
        None => seq![],
    }
}

/// The watcher is on unless the setting is `0` or, in any case of letters,
/// `false`.
pub open spec fn watcher_enabled(value: Option<String>) -> bool {
    match value {
        Some(v) => v@ != "0"@ && lowercase(v@) != "false"@,
        None => true,
    }
}

fn read_usize(value: &Option<String>, fallback: usize) -> (r: usize)
    ensures
        r == usize_or(*value, fallback),
{
    match value {
        Some(v) => match crate::text::parse_usize(v.as_str()) {
            Some(n) => n,
            None => fallback,
        },
        None => fallback,
    }
}

fn read_u64(value: &Option<String>, fallback: u64) -> (r: u64)
    ensures
        r == u64_or(*value, fallback),
{
    match value {
        Some(v) => match crate::text::parse_u64(v.as_str()) {
            Some(n) => n,
            None => fallback,
        },
        None => fallback,
    }
}

fn read_patterns(value: &Option<String>) -> (r: Vec<String>)
    ensures
        crate::collections::string_views(r@) == pattern_list(*value),
{
    let mut out: Vec<String> = Vec::new();
    match value {
        Some(v) => {
            let chars = chars_of(v.as_str());
            let pieces = split_chars(chars.as_slice(), ',');
            let mut i: usize = 0;
            assert(crate::collections::string_views(out@) =~= seq![]);
            while i < pieces.len()
                invariant
                    i <= pieces.len(),
                    texts(pieces@) == split(v@, ','),
                    crate::collections::string_views(out@) == patterns_among(
                        split(v@, ','),
                        i as int,
                    ),
                decreases pieces.len() - i,
            {
                let piece = string_from_chars(pieces[i].as_slice());
                assert(texts(pieces@)[i as int] == pieces@[i as int]@);
                let kept = trim(piece.as_str());
                if !kept.as_str().is_empty() {
                    let ghost before = out@;
                    out.push(kept);
                    assert(crate::collections::string_views(out@) =~= crate::collections::string_views(
                        before,
                    ).push(kept@));
                }
                i += 1;
            }
        },
        None => {
            assert(crate::collections::string_views(out@) =~= seq![]);
        },
    }
    out
}

impl AppConfig {
    /// What `raw` says, with the defaults where it says nothing.
    pub open spec fn settled(raw: RawSettings, config: AppConfig) -> bool {
        &&& config.listen_addr@ == LISTEN_HOST@ + text_or(raw.port, DEFAULT_PORT@)
        &&& config.data_dir@ == text_or(raw.data_dir, text_or(raw.local_data_dir, FALLBACK_DATA_DIR@))
        &&& config.max_index_size_mb == usize_or(raw.max_index_mb, DEFAULT_MAX_INDEX_MB)
        &&& config.max_file_size_bytes == usize_or(raw.max_file_size, DEFAULT_MAX_FILE_SIZE)
        &&& config.watcher_debounce_ms == u64_or(
            raw.watcher_debounce_ms,
            DEFAULT_WATCHER_DEBOUNCE_MS,
        )
        &&& config.index_batch_size == usize_or(raw.index_batch_size, DEFAULT_INDEX_BATCH_SIZE)
        &&& config.max_indexed_files == usize_or(raw.max_indexed_files, DEFAULT_MAX_INDEXED_FILES)
        &&& crate::collections::string_views(config.exclude_patterns@) == pattern_list(
            raw.exclude_patterns,
        )
        &&& crate::collections::string_views(config.include_patterns@) == pattern_list(
            raw.include_patterns,
        )
        &&& config.enable_file_watcher == watcher_enabled(raw.enable_file_watcher)
    }

    /// Builds the settings from what was written down. The service listens
    /// on the loopback address; a number that cannot be read gives way to
    /// its default.
    pub fn from_settings(raw: &RawSettings) -> (config: AppConfig)
        ensures
            AppConfig::settled(*raw, config),
    {
        let mut listen_addr = String::from_str(LISTEN_HOST);
        match &raw.port {
            Some(p) => listen_addr.append(p.as_str()),
            None => listen_addr.append(DEFAULT_PORT),
        }
        let data_dir = match &raw.data_dir {
            Some(d) => d.clone(),
            None => match &raw.local_data_dir {
                Some(d) => d.clone(),
                None => String::from_str(FALLBACK_DATA_DIR),
            },
        };
        let enable_file_watcher = match &raw.enable_file_watcher {
            Some(v) => {
                let lowered = to_lowercase(v.as_str());
                !str_eq(v.as_str(), "0") && !str_eq(lowered.as_str(), "false")
            },
            None => true,
        };
        AppConfig {
            listen_addr,
            max_index_size_mb: read_usize(&raw.max_index_mb, DEFAULT_MAX_INDEX_MB),
            max_file_size_bytes: read_usize(&raw.max_file_size, DEFAULT_MAX_FILE_SIZE),
            watcher_debounce_ms: read_u64(&raw.watcher_debounce_ms, DEFAULT_WATCHER_DEBOUNCE_MS),
            index_batch_size: read_usize(&raw.index_batch_size, DEFAULT_INDEX_BATCH_SIZE),
            data_dir,
            max_indexed_files: read_usize(&raw.max_indexed_files, DEFAULT_MAX_INDEXED_FILES),
            exclude_patterns: read_patterns(&raw.exclude_patterns),
            include_patterns: read_patterns(&raw.include_patterns),
            enable_file_watcher,
        }
    }
}

} // verus!
