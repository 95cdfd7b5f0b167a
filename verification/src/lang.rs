//! Language tags by file extension.

use crate::text::{lowercase, str_eq, to_lowercase};
use vstd::prelude::*;

verus! {

/// The extensions that have a language tag of their own, lowercase.
pub const LANGUAGE_EXTENSIONS: [&'static str; 84] = [
    "ts", "tsx", "js", "jsx", "mjs", "cjs", "rs", "py", "pyi", "pyw", "go", "java", "c", "h",
    "cpp", "hpp", "cc", "cxx", "hxx", "cs", "rb", "rake", "php", "swift", "kt", "kts", "scala",
    "sc", "html", "htm", "css", "scss", "sass", "less", "json", "jsonc", "yaml", "yml", "toml",
    "xml", "xsl", "xslt", "md", "mdx", "rst", "sql", "graphql", "gql", "sh", "bash", "zsh",
    "fish", "ps1", "psm1", "psd1", "bat", "cmd", "vue", "svelte", "astro", "lua", "zig", "nim",
    "dart", "elixir", "ex", "exs", "erl", "hrl", "r", "jl", "clj", "cljs", "cljc", "tf", "hcl",
    "proto", "dockerfile", "makefile", "ini", "cfg", "conf", "env", "txt",
];

/// The language tag of each extension, in the order of the extensions.
pub const LANGUAGE_TAGS: [&'static str; 84] = [
    "typescript", "typescript", "javascript", "javascript", "javascript", "javascript", "rust",
    "python", "python", "python", "go", "java", "c", "c", "cpp", "cpp", "cpp", "cpp", "cpp",
    "csharp", "ruby", "ruby", "php", "swift", "kotlin", "kotlin", "scala", "scala", "html",
    "html", "css", "scss", "scss", "scss", "json", "json", "yaml", "yaml", "toml", "xml", "xml",
    "xml", "markdown", "markdown", "markdown", "sql", "graphql", "graphql", "shell", "shell",
    "shell", "shell", "powershell", "powershell", "powershell", "batch", "batch", "vue",
    "svelte", "astro", "lua", "zig", "nim", "dart", "elixir", "elixir", "elixir", "erlang",
    "erlang", "r", "julia", "clojure", "clojure", "clojure", "hcl", "hcl", "protobuf",
    "dockerfile", "makefile", "ini", "ini", "ini", "dotenv", "plaintext",
];

/// The tag of every extension that is not listed.
pub const PLAIN_TEXT: &'static str = "plaintext";

/// The tag of the first listed extension from `from` on that is `ext`; the
/// tag of plain text if there is none.
pub open spec fn tag_from(ext: Seq<char>, from: int) -> Seq<char>
    decreases LANGUAGE_EXTENSIONS@.len() - from,
{
    if from < 0 || from >= LANGUAGE_EXTENSIONS@.len() {
        PLAIN_TEXT@
    } else if LANGUAGE_EXTENSIONS@[from]@ == ext {
        LANGUAGE_TAGS@[from]@
    } else {
        tag_from(ext, from + 1)
    }
}

/// The language tag of a lowercase extension.
pub open spec fn language_tag(ext: Seq<char>) -> Seq<char> {
    tag_from(ext, 0)
}

/// The language tag of an extension given in lowercase.
pub fn language_of_lowercase(ext: &str) -> (tag: &'static str)
    ensures
        tag@ == language_tag(ext@),
{
    let mut i: usize = 0;
    while i < LANGUAGE_EXTENSIONS.len()
        invariant
            i <= LANGUAGE_EXTENSIONS@.len(),
            LANGUAGE_EXTENSIONS@.len() == LANGUAGE_TAGS@.len(),
            language_tag(ext@) == tag_from(ext@, i as int),
        decreases LANGUAGE_EXTENSIONS@.len() - i,
    {
        if str_eq(LANGUAGE_EXTENSIONS[i], ext) {
            return LANGUAGE_TAGS[i];
        }
        i += 1;
    }
    PLAIN_TEXT
}

/// The language tag of a file extension, in whatever case it is written.
pub fn detect_language(ext: &str) -> (tag: &'static str)
    ensures
        tag@ == language_tag(lowercase(ext@)),
{
    let lowered = to_lowercase(ext);
    language_of_lowercase(lowered.as_str())
}

} // verus!
