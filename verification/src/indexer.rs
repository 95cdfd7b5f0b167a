//! The lexical index of a workspace: what goes into it, and how a rebuild or
//! a single changed file is brought in.
//!
//! The index itself lives with the caller. This module decides: which files
//! pass the filter, what a document holds, which paths a rebuild deletes and
//! adds, and which events go out. The caller walks the tree, reads the files
//! and writes the index as it is told.

use crate::collections::{copy_catalog, copy_strings, lemma_push_to_set, string_views, StringMap};
use crate::config::{
    excluded_directory, is_excluded_directory, is_listed, is_supported_extension, listed,
    matches_user_exclude_patterns, matches_user_patterns, supported_extension,
};
use crate::error::AppError;
use crate::flags::{flags, flags_get, flags_insert, flags_new, flags_remove};
use crate::hashes::{classify, compute_content_hash, recorded, sha256_hex, Reconciliation};
use crate::lang::{detect_language, language_tag};
use crate::paths::{
    extension, extension_of, file_name, file_name_of, forward_slashes, join_path, joined,
    make_relative, relative_to, segments, with_forward_slashes,
};
use crate::state::ServerEvent;
use crate::symbols::{captured_by, extract_symbols, patterns_of, symbol_text};
use crate::text::{chars_of, lowercase, split_chars, string_from_chars, texts, to_lowercase};
use vstd::prelude::*;
use vstd::string::StringExecFns;

verus! {

// ---------------------------------------------------------------------------
// Schema
// ---------------------------------------------------------------------------

/// How a field of a document is indexed.
#[derive(Clone, Copy, PartialEq, Eq, Structural)]
pub enum FieldKind {
    /// A text that is matched as a whole.
    Keyword,
    /// A text that is cut into words.
    FullText,
    /// An unsigned number.
    Number,
}

/// The fields of a document, each stored with the document.
pub struct IndexSchema {
    pub path: usize,
    pub relative_path: usize,
    pub filename: usize,
    pub extension: usize,
    pub content: usize,
    pub language: usize,
    pub size: usize,
    pub modified: usize,
    pub content_hash: usize,
    pub symbols: usize,
    pub schema: Vec<(&'static str, FieldKind)>,
}

impl IndexSchema {
    /// The fields in their order: name and kind.
    pub open spec fn fields() -> Seq<(&'static str, FieldKind)> {
        seq![
            ("path", FieldKind::Keyword),
            ("relative_path", FieldKind::Keyword),
            ("filename", FieldKind::FullText),
            ("extension", FieldKind::Keyword),
            ("content", FieldKind::FullText),
            ("language", FieldKind::Keyword),
            ("size", FieldKind::Number),
            ("modified", FieldKind::Number),
            ("content_hash", FieldKind::Keyword),
            ("symbols", FieldKind::FullText),
        ]
    }

    /// The schema of the lexical index. Each field is known by its position.
    pub fn build() -> (s: Self)
        ensures
            s.schema@ == Self::fields(),
            s.path == 0,
            s.relative_path == 1,
            s.filename == 2,
            s.extension == 3,
            s.content == 4,
            s.language == 5,
            s.size == 6,
            s.modified == 7,
            s.content_hash == 8,
            s.symbols == 9,
    {
        let mut schema: Vec<(&'static str, FieldKind)> = Vec::new();
        schema.push(("path", FieldKind::Keyword));
        schema.push(("relative_path", FieldKind::Keyword));
        schema.push(("filename", FieldKind::FullText));
        schema.push(("extension", FieldKind::Keyword));
        schema.push(("content", FieldKind::FullText));
        schema.push(("language", FieldKind::Keyword));
        schema.push(("size", FieldKind::Number));
        schema.push(("modified", FieldKind::Number));
        schema.push(("content_hash", FieldKind::Keyword));
        schema.push(("symbols", FieldKind::FullText));
        assert(schema@ =~= Self::fields());
        IndexSchema {
            path: 0,
            relative_path: 1,
            filename: 2,
            extension: 3,
            content: 4,
            language: 5,
            size: 6,
            modified: 7,
            content_hash: 8,
            symbols: 9,
            schema,
        }
    }

    /// The fields in their order: name and kind.
    pub fn schema(&self) -> (fields: &Vec<(&'static str, FieldKind)>)
        ensures
            fields@ == self.schema@,
    {
        &self.schema
    }
}

// ---------------------------------------------------------------------------
// The path filter
// ---------------------------------------------------------------------------

/// File names that are indexed whatever their extension, lowercase.
pub const SPECIAL_FILE_NAMES: [&'static str; 14] = [
    "dockerfile", "makefile", "cmakelists.txt", "cargo.toml", "package.json", "tsconfig.json",
    "pyproject.toml", ".gitignore", ".eslintrc", ".prettierrc", "readme", "license", "changelog",
    "contributing",
];

/// How deep a walk of a workspace goes.
pub const MAX_WALK_DEPTH: usize = 20;

/// Bytes that the writer of a full rebuild may buffer.
pub const REBUILD_WRITER_BUFFER: usize = 52428800;

/// Bytes that the writer of a single-file update may buffer.
pub const UPDATE_WRITER_BUFFER: usize = 10485760;

/// A file of this path is indexable by its name: its extension, in
/// lowercase, is supported, or its name, in lowercase, is one of the special
/// names.
pub open spec fn indexable_name(path: Seq<char>) -> bool {
    supported_extension(lowercase(extension_of(path))) || listed(
        SPECIAL_FILE_NAMES@,
        lowercase(file_name_of(path)),
    )
}

/// Some part of the path is the name of an excluded directory.
pub open spec fn in_excluded_directory(path: Seq<char>) -> bool {
    exists|i: int| 0 <= i < segments(path).len() && excluded_directory(#[trigger] segments(path)[i])
}

/// Some part of the path meets one of the user's patterns.
pub open spec fn excluded_by_user(path: Seq<char>, patterns: Seq<Seq<char>>) -> bool {
    exists|i: int|
        0 <= i < segments(path).len() && matches_user_patterns(
            #[trigger] segments(path)[i],
            patterns,
        )
}

/// What a walk finds at a path.
pub struct WalkEntry {
    /// The absolute path.
    pub path: String,
    /// The path as seen from the root of the workspace.
    pub relative_path: String,
    /// A regular file stands there.
    pub is_file: bool,
    /// Its size in bytes.
    pub size: u64,
}

/// The path filter on what is known of a file: a regular file, no part of
/// whose path names an excluded directory, with an indexable name, neither
/// empty nor over the size cap, that the user's patterns do not exclude.
pub open spec fn indexable(
    path: Seq<char>,
    relative_path: Seq<char>,
    is_file: bool,
    size: u64,
    max_file_size: usize,
    patterns: Seq<Seq<char>>,
) -> bool {
    &&& is_file
    &&& !in_excluded_directory(path)
    &&& indexable_name(path)
    &&& 0 < size <= max_file_size
    &&& !excluded_by_user(relative_path, patterns)
}

/// What a walk found passes the path filter.
pub open spec fn passes_filter(
    entry: WalkEntry,
    max_file_size: usize,
    patterns: Seq<Seq<char>>,
) -> bool {
    indexable(
        entry.path@,
        entry.relative_path@,
        entry.is_file,
        entry.size,
        max_file_size,
        patterns,
    )
}

/// Whether `name`, given in lowercase, is one of the special file names.
pub fn is_special_file_name(name: &str) -> (r: bool)
    ensures
        r == listed(SPECIAL_FILE_NAMES@, name@),
{
    is_listed(SPECIAL_FILE_NAMES.as_slice(), name)
}

/// Whether a file of this path is indexable by its name.
pub fn is_indexable(path: &str) -> (r: bool)
    ensures
        r == indexable_name(path@),
{
    let chars = chars_of(path);
    let ext = string_from_chars(extension(chars.as_slice()).as_slice());
    let ext_lower = to_lowercase(ext.as_str());
    if is_supported_extension(ext_lower.as_str()) {
        return true;
    }
    let name = string_from_chars(file_name(chars.as_slice()).as_slice());
    let name_lower = to_lowercase(name.as_str());
    is_special_file_name(name_lower.as_str())
}

/// Whether some part of `path` meets one of the user's patterns.
pub fn is_excluded_by_user(path: &str, patterns: &[String]) -> (r: bool)
    ensures
        r == excluded_by_user(path@, string_views(patterns@)),
{
    let chars = chars_of(path);
    let parts = split_chars(chars.as_slice(), '/');
    let mut i: usize = 0;
    while i < parts.len()
        invariant
            i <= parts.len(),
            texts(parts@) == segments(path@),
            forall|j: int|
                0 <= j < i ==> !matches_user_patterns(
                    #[trigger] segments(path@)[j],
                    string_views(patterns@),
                ),
        decreases parts.len() - i,
    {
        let part = string_from_chars(parts[i].as_slice());
        assert(texts(parts@)[i as int] == parts@[i as int]@);
        if matches_user_exclude_patterns(part.as_str(), patterns) {
            return true;
        }
        i += 1;
    }
    false
}

/// Whether what a walk found passes the path filter, under this size cap
/// and these patterns of the user.
pub fn meets_filter(entry: &WalkEntry, max_file_size: usize, patterns: &[String]) -> (r: bool)
    ensures
        r == passes_filter(*entry, max_file_size, string_views(patterns@)),
{
    entry.is_file && !IndexManager::is_build_or_output_dir(entry.path.as_str()) && is_indexable(
        entry.path.as_str(),
    ) && entry.size > 0 && entry.size <= max_file_size as u64 && !is_excluded_by_user(
        entry.relative_path.as_str(),
        patterns,
    )
}

// ---------------------------------------------------------------------------
// Documents
// ---------------------------------------------------------------------------

/// A document of the lexical index: one file.
pub struct FileRecord {
    /// The absolute path; a document is found and deleted by it.
    pub path: String,
    /// The path as seen from the workspace, with `/` between its parts.
    pub relative_path: String,
    pub filename: String,
    /// The extension in lowercase.
    pub extension: String,
    pub content: String,
    pub language: String,
    pub size: u64,
    /// Seconds since the epoch at which the file was last written.
    pub modified: u64,
    /// The content hash of `content`.
    pub content_hash: String,
    pub symbols: String,
}

impl FileRecord {
    /// The document of the file at `file_path` in the workspace at
    /// `workspace_path` with this content, size and time of last writing.
    pub open spec fn describes(
        &self,
        file_path: Seq<char>,
        workspace_path: Seq<char>,
        content: Seq<char>,
        size: u64,
        modified: u64,
    ) -> bool {
        &&& self.path@ == file_path
        &&& self.relative_path@ == forward_slashes(relative_to(workspace_path, file_path))
        &&& self.filename@ == file_name_of(file_path)
        &&& self.extension@ == lowercase(extension_of(file_path))
        &&& self.content@ == content
        &&& self.language@ == language_tag(lowercase(self.extension@))
        &&& self.size == size
        &&& self.modified == modified
        &&& self.content_hash@ == sha256_hex(content)
        &&& self.symbols@ == symbol_text(
            captured_by(
                patterns_of(self.language@),
                content,
                patterns_of(self.language@).len() as int,
            ),
        )
    }
}

/// Makes the document of a file from what was read of it.
pub fn prepare_file_document(
    file_path: &str,
    workspace_path: &str,
    content: String,
    size: u64,
    modified: u64,
) -> (doc: FileRecord)
    ensures
        doc.describes(file_path@, workspace_path@, content@, size, modified),
{
    let path_chars = chars_of(file_path);
    let root_chars = chars_of(workspace_path);
    let relative = with_forward_slashes(
        make_relative(root_chars.as_slice(), path_chars.as_slice()).as_slice(),
    );
    let name = file_name(path_chars.as_slice());
    let ext = string_from_chars(extension(path_chars.as_slice()).as_slice());
    let ext_lower = to_lowercase(ext.as_str());
    let language = String::from_str(detect_language(ext_lower.as_str()));
    let content_hash = compute_content_hash(content.as_str());
    let symbols = extract_symbols(content.as_str(), language.as_str());
    FileRecord {
        path: String::from_str(file_path),
        relative_path: string_from_chars(relative.as_slice()),
        filename: string_from_chars(name.as_slice()),
        extension: ext_lower,
        content,
        language,
        size,
        modified,
        content_hash,
        symbols,
    }
}

// ---------------------------------------------------------------------------
// The manager
// ---------------------------------------------------------------------------

/// Where a workspace stands with its index.
pub struct IndexStatusResponse {
    pub indexed: bool,
    pub is_indexing: bool,
    pub indexed_count: usize,
    pub total_count: usize,
    pub total_size_bytes: u64,
}

impl Default for IndexStatusResponse {
    fn default() -> (r: Self)
        ensures
            r == IndexStatusResponse::nothing(),
    {
        IndexStatusResponse {
            indexed: false,
            is_indexing: false,
            indexed_count: 0,
            total_count: 0,
            total_size_bytes: 0,
        }
    }
}

impl IndexStatusResponse {
    /// The status of a workspace without an index.
    pub open spec fn nothing() -> Self {
        IndexStatusResponse {
            indexed: false,
            is_indexing: false,
            indexed_count: 0,
            total_count: 0,
            total_size_bytes: 0,
        }
    }
}

/// The counters of the index of one workspace.
#[derive(Clone, Copy, PartialEq, Eq, Structural)]
pub struct IndexState {
    /// A full rebuild is under way.
    pub is_indexing: bool,
    pub indexed_count: usize,
    pub total_count: usize,
    pub total_size_bytes: u64,
}

/// What a full rebuild has to write.
pub struct RebuildPlan {
    /// How the scan stands against the catalog.
    pub changes: Reconciliation,
    /// The paths whose documents are deleted before anything is added: the
    /// removed ones, then the new or changed ones.
    pub delete_paths: Vec<String>,
    /// The scan: the catalog that the rebuild leaves.
    pub hashes: StringMap<String>,
    /// Number of files that the scan found.
    pub total: usize,
    /// The event that announces the rebuild.
    pub started: ServerEvent,
}

/// What a call for a full rebuild comes to.
pub enum RebuildStep {
    /// No rebuild of this workspace was begun by `begin_rebuild`.
    NotBegun,
    /// The scan found what the catalog records; nothing is written and no
    /// event goes out.
    UpToDate,
    /// There is work, and this is it.
    Work(RebuildPlan),
}

/// What the index does about one changed file.
pub enum ReindexAction {
    /// Nothing: the workspace has no index, or a full rebuild is under way.
    Skip,
    /// The documents of this path are deleted.
    Delete { path: String },
    /// The documents of this path are deleted and the file is indexed anew.
    Replace { path: String },
}

/// The text of a change that takes a file away.
pub const CHANGE_REMOVE: &'static str = "remove";

// ---------------------------------------------------------------------------
// The maps of the manager
// ---------------------------------------------------------------------------

/// The counters that the map keeps for each workspace, by the id of the
/// workspace.
pub uninterp spec fn index_states(map: dashmap::DashMap<String, IndexState>) -> Map<
    Seq<char>,
    IndexState,
>;

/// `DashMap::new`: a map that holds nothing.
#[verifier::external_body]
fn states_new() -> (map: dashmap::DashMap<String, IndexState>)
    ensures
        index_states(map) =~= Map::empty(),
{
    dashmap::DashMap::new()
}

/// `DashMap::insert`: afterwards the key has this value, and every other
/// key what it had.
#[verifier::external_body]
fn states_insert(map: &mut dashmap::DashMap<String, IndexState>, key: String, value: IndexState)
    ensures
        index_states(*final(map)) == index_states(*old(map)).insert(key@, value),
{
    map.insert(key, value);
}

/// `DashMap::get`, with the value copied out: the value of the key, if the
/// map holds the key.
#[verifier::external_body]
fn states_get(map: &dashmap::DashMap<String, IndexState>, key: &str) -> (found: Option<IndexState>)
    ensures
        found is Some == index_states(*map).contains_key(key@),
        found matches Some(value) ==> value == index_states(*map)[key@],
{
    map.get(key).map(|entry| *entry.value())
}

/// `DashMap::remove`: afterwards the map does not hold the key, and every
/// other key has what it had.
#[verifier::external_body]
fn states_remove(map: &mut dashmap::DashMap<String, IndexState>, key: &str)
    ensures
        index_states(*final(map)) == index_states(*old(map)).remove(key@),
{
    map.remove(key);
}

/// `DashMap::contains_key`: whether the map holds the key.
#[verifier::external_body]
fn states_has(map: &dashmap::DashMap<String, IndexState>, key: &str) -> (held: bool)
    ensures
        held == index_states(*map).contains_key(key@),
{
    map.contains_key(key)
}

/// The catalog of content hashes that the map keeps for each workspace, by
/// the id of the workspace.
pub uninterp spec fn hash_catalogs(map: dashmap::DashMap<String, StringMap<String>>) -> Map<
    Seq<char>,
    StringMap<String>,
>;

/// `DashMap::new`: a map that holds nothing.
#[verifier::external_body]
fn catalogs_new() -> (map: dashmap::DashMap<String, StringMap<String>>)
    ensures
        hash_catalogs(map) =~= Map::empty(),
{
    dashmap::DashMap::new()
}

/// `DashMap::insert`: afterwards the key has this value, and every other
/// key what it had.
#[verifier::external_body]
fn catalogs_insert(
    map: &mut dashmap::DashMap<String, StringMap<String>>,
    key: String,
    value: StringMap<String>,
)
    ensures
        hash_catalogs(*final(map)) == hash_catalogs(*old(map)).insert(key@, value),
{
    map.insert(key, value);
}

/// `DashMap::remove`: afterwards the map does not hold the key, and every
/// other key has what it had; the result is the value that the key had.
#[verifier::external_body]
fn catalogs_remove(map: &mut dashmap::DashMap<String, StringMap<String>>, key: &str) -> (removed:
    Option<StringMap<String>>)
    ensures
        hash_catalogs(*final(map)) == hash_catalogs(*old(map)).remove(key@),
        removed is Some == hash_catalogs(*old(map)).contains_key(key@),
        removed matches Some(value) ==> value == hash_catalogs(*old(map))[key@],
{
    map.remove(key).map(|pair| pair.1)
}

/// `DashMap::contains_key`: whether the map holds the key.
#[verifier::external_body]
fn catalogs_has(map: &dashmap::DashMap<String, StringMap<String>>, key: &str) -> (held: bool)
    ensures
        held == hash_catalogs(*map).contains_key(key@),
{
    map.contains_key(key)
}

/// The indexes of all workspaces.
pub struct IndexManager {
    pub indexes: dashmap::DashMap<String, IndexState>,
    pub base_dir: String,
    pub max_file_size: usize,
    pub batch_size: usize,
    pub max_indexed_files: usize,
    pub exclude_patterns: Vec<String>,
    /// For each workspace, its catalog of content hashes.
    pub content_hashes: dashmap::DashMap<String, StringMap<String>>,
    /// The workspaces that completed a full rebuild.
    pub indexed_workspaces: dashmap::DashMap<String, bool>,
}

impl IndexManager {
    /// The counters of each workspace that has an index.
    pub open spec fn counters(&self) -> Map<Seq<char>, IndexState> {
        index_states(self.indexes)
    }

    /// The catalog of content hashes of each workspace that has one.
    pub open spec fn catalogs(&self) -> Map<Seq<char>, StringMap<String>> {
        hash_catalogs(self.content_hashes)
    }

    /// For each workspace of which it was noted, whether a full rebuild of
    /// it has completed.
    pub open spec fn indexed(&self) -> Map<Seq<char>, bool> {
        flags(self.indexed_workspaces)
    }

    /// Every catalog is well formed.
    pub open spec fn wf(&self) -> bool {
        forall|w: Seq<char>| #[trigger]
            hash_catalogs(self.content_hashes).contains_key(w) ==> hash_catalogs(
                self.content_hashes,
            )[w].wf()
    }

    /// A full rebuild of the workspace is under way.
    pub open spec fn rebuilding(&self, workspace_id: Seq<char>) -> bool {
        self.counters().contains_key(workspace_id) && self.counters()[workspace_id].is_indexing
    }

    /// The workspace completed a full rebuild.
    pub open spec fn completed(&self, workspace_id: Seq<char>) -> bool {
        self.indexed().contains_key(workspace_id)
            && self.indexed()[workspace_id]
    }

    /// What the catalog of the workspace records; nothing if it has none.
    pub open spec fn catalog(&self, workspace_id: Seq<char>) -> Map<Seq<char>, Seq<char>> {
        if self.catalogs().contains_key(workspace_id) {
            recorded(self.catalogs()[workspace_id])
        } else {
            Map::empty()
        }
    }

    /// The settings of the manager are those of `other`.
    pub open spec fn same_settings(&self, other: &IndexManager) -> bool {
        &&& self.base_dir == other.base_dir
        &&& self.max_file_size == other.max_file_size
        &&& self.batch_size == other.batch_size
        &&& self.max_indexed_files == other.max_indexed_files
        &&& self.exclude_patterns == other.exclude_patterns
    }

    /// A manager without any index. `batch_size` is the number of documents
    /// between two progress events; with 0 there are none.
    pub fn new(
        base_dir: String,
        max_file_size: usize,
        batch_size: usize,
        max_indexed_files: usize,
        exclude_patterns: Vec<String>,
    ) -> (m: Self)
        ensures
            m.wf(),
            m.counters() == Map::<Seq<char>, IndexState>::empty(),
            m.catalogs() == Map::<Seq<char>, StringMap<String>>::empty(),
            m.indexed() == Map::<Seq<char>, bool>::empty(),
            m.base_dir == base_dir,
            m.max_file_size == max_file_size,
            m.batch_size == batch_size,
            m.max_indexed_files == max_indexed_files,
            m.exclude_patterns == exclude_patterns,
    {
        IndexManager {
            indexes: states_new(),
            base_dir,
            max_file_size,
            batch_size,
            max_indexed_files,
            exclude_patterns,
            content_hashes: catalogs_new(),
            indexed_workspaces: flags_new(),
        }
    }

    /// The directory that holds the index of a workspace.
    pub fn index_dir(&self, workspace_id: &str) -> (dir: String)
        ensures
            dir@ == joined(self.base_dir@, workspace_id@),
    {
        join_path(self.base_dir.as_str(), workspace_id)
    }

    /// Whether some part of `path` names a directory for build output or
    /// another excluded directory.
    pub fn is_build_or_output_dir(path: &str) -> (r: bool)
        ensures
            r == in_excluded_directory(path@),
    {
        let chars = chars_of(path);
        let parts = split_chars(chars.as_slice(), '/');
        let mut i: usize = 0;
        while i < parts.len()
            invariant
                i <= parts.len(),
                texts(parts@) == segments(path@),
                forall|j: int| 0 <= j < i ==> !excluded_directory(#[trigger] segments(path@)[j]),
            decreases parts.len() - i,
        {
            let part = string_from_chars(parts[i].as_slice());
            assert(texts(parts@)[i as int] == parts@[i as int]@);
            if is_excluded_directory(part.as_str()) {
                return true;
            }
            i += 1;
        }
        false
    }

    /// Whether what a walk found passes the path filter.
    pub fn accepts(&self, entry: &WalkEntry) -> (r: bool)
        ensures
            r == passes_filter(*entry, self.max_file_size, string_views(self.exclude_patterns@)),
    {
        meets_filter(entry, self.max_file_size, self.exclude_patterns.as_slice())
    }

    /// Makes sure the workspace has an index. Returns whether it had none.
    pub fn get_or_create_index(&mut self, workspace_id: &str) -> (created: bool)
        requires
            old(self).wf(),
        ensures
            final(self).wf(),
            created == !old(self).counters().contains_key(workspace_id@),
            created ==> final(self).counters() == old(self).counters().insert(
                workspace_id@,
                IndexState {
                    is_indexing: false,
                    indexed_count: 0,
                    total_count: 0,
                    total_size_bytes: 0,
                },
            ),
            !created ==> final(self).counters() == old(self).counters(),
            final(self).catalogs() == old(self).catalogs(),
            final(self).indexed() == old(self).indexed(),
            final(self).same_settings(old(self)),
    {
        if states_has(&self.indexes, workspace_id) {
            return false;
        }
        states_insert(&mut self.indexes, 
            String::from_str(workspace_id),
            IndexState { is_indexing: false, indexed_count: 0, total_count: 0, total_size_bytes: 0 },
        );
        true
    }

    /// Takes the right to rebuild the workspace in full, if nobody holds it.
    /// Returns whether it was taken; at most one rebuild of a workspace is
    /// under way at any time.
    pub fn begin_rebuild(&mut self, workspace_id: &str) -> (taken: bool)
        requires
            old(self).wf(),
        ensures
            final(self).wf(),
            taken == !old(self).rebuilding(workspace_id@),
            final(self).rebuilding(workspace_id@),
            final(self).counters() == old(self).counters().insert(
                workspace_id@,
                final(self).counters()[workspace_id@],
            ),
            old(self).counters().contains_key(workspace_id@) ==> final(self).counters()[workspace_id@]
                == (IndexState { is_indexing: true, ..old(self).counters()[workspace_id@] }),
            final(self).catalogs() == old(self).catalogs(),
            final(self).indexed() == old(self).indexed(),
            final(self).same_settings(old(self)),
    {
        self.get_or_create_index(workspace_id);
        let state = states_get(&self.indexes, workspace_id).unwrap();
        if state.is_indexing {
            assert(self.counters() =~= old(self).counters().insert(
                workspace_id@,
                self.counters()[workspace_id@],
            ));
            return false;
        }
        states_insert(&mut self.indexes, 
            String::from_str(workspace_id),
            IndexState { is_indexing: true, ..state },
        );
        assert(self.counters() =~= old(self).counters().insert(
            workspace_id@,
            self.counters()[workspace_id@],
        ));
        true
    }

    /// Whether a catalog of content hashes is held for the workspace.
    pub fn has_content_hashes(&self, workspace_id: &str) -> (r: bool)
        requires
            self.wf(),
        ensures
            r == self.catalogs().contains_key(workspace_id@),
    {
        catalogs_has(&self.content_hashes, workspace_id)
    }

    /// Takes in the catalog that was stored for the workspace, unless one is
    /// held already.
    pub fn load_content_hashes(&mut self, workspace_id: &str, stored: StringMap<String>)
        requires
            old(self).wf(),
            stored.wf(),
        ensures
            final(self).wf(),
            final(self).catalogs() == (if old(self).catalogs().contains_key(
                workspace_id@,
            ) {
                old(self).catalogs()
            } else {
                old(self).catalogs().insert(workspace_id@, stored)
            }),
            final(self).counters() == old(self).counters(),
            final(self).indexed() == old(self).indexed(),
            final(self).same_settings(old(self)),
    {
        if !catalogs_has(&self.content_hashes, workspace_id) {
            catalogs_insert(&mut self.content_hashes, String::from_str(workspace_id), stored);
        }
    }

    /// The catalog of the workspace; an empty one is set up if it has none.
    pub fn read_existing_hashes(&mut self, workspace_id: &str) -> (catalog: StringMap<String>)
        requires
            old(self).wf(),
        ensures
            final(self).wf(),
            catalog.wf(),
            recorded(catalog) == old(self).catalog(workspace_id@),
            final(self).catalog(workspace_id@) == old(self).catalog(workspace_id@),
            final(self).catalogs().contains_key(workspace_id@),
            old(self).catalogs().contains_key(workspace_id@) ==> {
                &&& final(self).catalogs() == old(self).catalogs()
                &&& catalog.keys@ == old(self).catalogs()[workspace_id@].keys@
                &&& catalog.values@ == old(self).catalogs()[workspace_id@].values@
            },
            !old(self).catalogs().contains_key(workspace_id@) ==> {
                &&& final(self).catalogs() == old(self).catalogs().insert(
                    workspace_id@,
                    final(self).catalogs()[workspace_id@],
                )
                &&& catalog.keys@.len() == 0
            },
            final(self).counters() == old(self).counters(),
            final(self).indexed() == old(self).indexed(),
            final(self).same_settings(old(self)),
    {
        match catalogs_remove(&mut self.content_hashes, workspace_id) {
            Some(held) => {
                let copy = copy_catalog(&held);
                catalogs_insert(&mut self.content_hashes, String::from_str(workspace_id), held);
                assert(self.catalogs() =~= old(self).catalogs());
                copy
            },
            None => {
                let empty: StringMap<String> = StringMap::new();
                catalogs_insert(&mut self.content_hashes, String::from_str(workspace_id), empty);
                let fresh: StringMap<String> = StringMap::new();
                assert(recorded(fresh) =~= Map::<Seq<char>, Seq<char>>::empty());
                assert(self.catalog(workspace_id@) =~= Map::<Seq<char>, Seq<char>>::empty());
                fresh
            },
        }
    }
}

impl IndexManager {
    /// The counters of a workspace; those of a workspace without an index
    /// are zero.
    pub open spec fn state(&self, workspace_id: Seq<char>) -> IndexState {
        if self.counters().contains_key(workspace_id) {
            self.counters()[workspace_id]
        } else {
            IndexState { is_indexing: false, indexed_count: 0, total_count: 0, total_size_bytes: 0 }
        }
    }

    /// The rebuild plan for the scan `current` against `existing`.
    pub open spec fn plans(
        plan: RebuildPlan,
        workspace_id: Seq<char>,
        existing: Map<Seq<char>, Seq<char>>,
        current: StringMap<String>,
    ) -> bool {
        &&& plan.hashes.wf()
        &&& plan.hashes.keys@ == current.keys@
        &&& plan.hashes.values@ == current.values@
        &&& plan.total == current.keys.len()
        &&& plan.started is IndexingStarted
        &&& plan.started.subject() == workspace_id
        &&& crate::hashes::reconciles(plan.changes, existing, current)
        &&& string_views(plan.delete_paths@) == string_views(plan.changes.to_remove@) + string_views(
            plan.changes.to_index@,
        )
        &&& !plan.changes.is_noop()
    }

    /// Compares what a scan found with the catalog and says what a full
    /// rebuild has to do. `walked` is what the walk of the workspace found,
    /// `hashes` the content hashes of the files that were read, and
    /// `total_size` the sum of their sizes. The scan is made of the files
    /// that the path filter selects and whose hash was read; whatever else
    /// `hashes` holds is left aside.
    ///
    /// If no rebuild was begun, nothing happens. If the scan finds what the
    /// catalog records, the rebuild is over at once: the workspace counts as
    /// indexed, the right to rebuild is given back, and no event goes out.
    /// Otherwise the plan says which paths to delete and which to index, and
    /// holds the event that announces the rebuild.
    pub fn index_workspace(
        &mut self,
        workspace_id: &str,
        walked: &Vec<WalkEntry>,
        hashes: &StringMap<String>,
        total_size: u64,
    ) -> (step: RebuildStep)
        requires
            old(self).wf(),
            hashes.wf(),
        ensures
            final(self).wf(),
            final(self).same_settings(old(self)),
            match step {
                RebuildStep::NotBegun => !old(self).rebuilding(workspace_id@) && *final(self) == *old(self),
                RebuildStep::UpToDate => {
                    &&& old(self).rebuilding(workspace_id@)
                    &&& old(self).scanned(walked@, *hashes) == old(self).catalog(workspace_id@)
                    &&& !final(self).state(workspace_id@).is_indexing
                    &&& final(self).state(workspace_id@).indexed_count == old(self).scanned(
                        walked@,
                        *hashes,
                    ).dom().len()
                    &&& final(self).state(workspace_id@).total_count == old(self).scanned(
                        walked@,
                        *hashes,
                    ).dom().len()
                    &&& final(self).state(workspace_id@).total_size_bytes == total_size
                    &&& final(self).completed(workspace_id@)
                    &&& final(self).catalog(workspace_id@) == old(self).catalog(workspace_id@)
                },
                RebuildStep::Work(plan) => {
                    &&& old(self).rebuilding(workspace_id@)
                    &&& old(self).scanned(walked@, *hashes) != old(self).catalog(workspace_id@)
                    &&& recorded(plan.hashes) == old(self).scanned(walked@, *hashes)
                    &&& Self::plans(plan, workspace_id@, old(self).catalog(workspace_id@), plan.hashes)
                    &&& final(self).state(workspace_id@) == IndexState {
                        is_indexing: true,
                        indexed_count: 0,
                        total_count: plan.total,
                        total_size_bytes: total_size,
                    }
                    &&& final(self).completed(workspace_id@) == old(self).completed(workspace_id@)
                    &&& final(self).catalog(workspace_id@) == old(self).catalog(workspace_id@)
                },
            },
            forall|w: Seq<char>|
                w != workspace_id@ ==> {
                    &&& final(self).state(w) == old(self).state(w)
                    &&& final(self).counters().contains_key(w) == old(self).counters().contains_key(w)
                    &&& final(self).catalog(w) == old(self).catalog(w)
                    &&& final(self).completed(w) == old(self).completed(w)
                },
    {
        let current = self.scan(walked, hashes);
        proof {
            current.lemma_len();
            assert(recorded(current).dom() =~= current@.dom());
        }
        let held = match states_get(&self.indexes, workspace_id) {
            Some(state) => state.is_indexing,
            None => false,
        };
        if !held {
            return RebuildStep::NotBegun;
        }
        let total = current.len();
        let existing = self.read_existing_hashes(workspace_id);
        let changes = classify(&existing, &current);
        proof {
            crate::hashes::lemma_classified_reconciles(existing, current, changes);
            crate::hashes::lemma_noop_iff_same(recorded(existing), current, changes);
        }
        if changes.nothing_to_do() {
            states_insert(&mut self.indexes, 
                String::from_str(workspace_id),
                IndexState {
                    is_indexing: false,
                    indexed_count: total,
                    total_count: total,
                    total_size_bytes: total_size,
                },
            );
            flags_insert(&mut self.indexed_workspaces, String::from_str(workspace_id), true);
            return RebuildStep::UpToDate;
        }
        states_insert(&mut self.indexes, 
            String::from_str(workspace_id),
            IndexState {
                is_indexing: true,
                indexed_count: 0,
                total_count: total,
                total_size_bytes: total_size,
            },
        );
        let mut delete_paths = copy_strings(&changes.to_remove);
        let mut i: usize = 0;
        while i < changes.to_index.len()
            invariant
                i <= changes.to_index.len(),
                string_views(delete_paths@) == string_views(changes.to_remove@) + string_views(
                    changes.to_index@,
                ).take(i as int),
            decreases changes.to_index.len() - i,
        {
            let ghost before = delete_paths@;
            delete_paths.push(changes.to_index[i].clone());
            assert(string_views(delete_paths@) =~= string_views(before).push(
                changes.to_index@[i as int]@,
            ));
            assert(string_views(changes.to_index@).take(i + 1) =~= string_views(
                changes.to_index@,
            ).take(i as int).push(changes.to_index@[i as int]@));
            i += 1;
        }
        assert(string_views(changes.to_index@).take(i as int) =~= string_views(changes.to_index@));
        let plan = RebuildPlan {
            changes,
            delete_paths,
            hashes: current,
            total,
            started: ServerEvent::IndexingStarted { workspace_id: String::from_str(workspace_id) },
        };
        RebuildStep::Work(plan)
    }
}

/// The count after one more document.
pub open spec fn one_more(count: usize) -> usize {
    if count < usize::MAX {
        (count + 1) as usize
    } else {
        count
    }
}

impl IndexManager {
    /// Counts one more document of a rebuild that has `to_index` documents
    /// to add. Every `batch_size` documents a progress event goes out.
    pub fn record_indexed(&mut self, workspace_id: &str, to_index: usize) -> (event: Option<
        ServerEvent,
    >)
        requires
            old(self).wf(),
        ensures
            final(self).wf(),
            final(self).same_settings(old(self)),
            final(self).catalogs() == old(self).catalogs(),
            final(self).indexed() == old(self).indexed(),
            !old(self).counters().contains_key(workspace_id@) ==> event is None && final(self).counters()
                == old(self).counters(),
            old(self).counters().contains_key(workspace_id@) ==> {
                let count = one_more(old(self).counters()[workspace_id@].indexed_count);
                &&& final(self).counters() == old(self).counters().insert(
                    workspace_id@,
                    IndexState { indexed_count: count, ..old(self).counters()[workspace_id@] },
                )
                &&& event is Some <==> old(self).batch_size > 0 && count % old(self).batch_size == 0
                &&& event matches Some(e) ==> (e matches ServerEvent::IndexingProgress {
                    workspace_id: w,
                    indexed,
                    total,
                } && w@ == workspace_id@ && indexed == count && total == to_index)
            },
    {
        let state = match states_get(&self.indexes, workspace_id) {
            Some(state) => state,
            None => {
                return None;
            },
        };
        let count: usize = if state.indexed_count < usize::MAX {
            state.indexed_count + 1
        } else {
            state.indexed_count
        };
        states_insert(&mut self.indexes, 
            String::from_str(workspace_id),
            IndexState { indexed_count: count, ..state },
        );
        if self.batch_size > 0 && count % self.batch_size == 0 {
            Some(
                ServerEvent::IndexingProgress {
                    workspace_id: String::from_str(workspace_id),
                    indexed: count,
                    total: to_index,
                },
            )
        } else {
            None
        }
    }

    /// Closes a rebuild whose writes were committed: the scan becomes the
    /// catalog, the workspace counts as indexed, the right to rebuild is
    /// given back. Returns the event that reports the completion.
    pub fn finish_rebuild(&mut self, workspace_id: &str, plan: RebuildPlan, duration_ms: u64) -> (event:
        ServerEvent)
        requires
            old(self).wf(),
            plan.hashes.wf(),
        ensures
            final(self).wf(),
            final(self).same_settings(old(self)),
            final(self).catalog(workspace_id@) == recorded(plan.hashes),
            final(self).catalogs() == old(self).catalogs().insert(
                workspace_id@,
                plan.hashes,
            ),
            final(self).counters() == old(self).counters().insert(
                workspace_id@,
                IndexState {
                    is_indexing: false,
                    indexed_count: plan.total,
                    ..old(self).state(workspace_id@)
                },
            ),
            final(self).indexed() == old(self).indexed().insert(
                workspace_id@,
                true,
            ),
            event matches ServerEvent::IndexingCompleted { workspace_id: w, total_files, duration_ms: d }
                && w@ == workspace_id@ && total_files == plan.total && d == duration_ms,
    {
        let state = match states_get(&self.indexes, workspace_id) {
            Some(state) => state,
            None => IndexState {
                is_indexing: false,
                indexed_count: 0,
                total_count: 0,
                total_size_bytes: 0,
            },
        };
        let total = plan.total;
        states_insert(&mut self.indexes, 
            String::from_str(workspace_id),
            IndexState { is_indexing: false, indexed_count: total, ..state },
        );
        catalogs_insert(&mut self.content_hashes, String::from_str(workspace_id), plan.hashes);
        flags_insert(&mut self.indexed_workspaces, String::from_str(workspace_id), true);
        ServerEvent::IndexingCompleted {
            workspace_id: String::from_str(workspace_id),
            total_files: total,
            duration_ms,
        }
    }

    /// Closes a rebuild that failed: the right to rebuild is given back and
    /// nothing else changes. Returns the event that reports the error.
    pub fn fail_rebuild(&mut self, workspace_id: &str, error: &AppError) -> (event: ServerEvent)
        requires
            old(self).wf(),
        ensures
            final(self).wf(),
            final(self).same_settings(old(self)),
            final(self).catalogs() == old(self).catalogs(),
            final(self).indexed() == old(self).indexed(),
            !old(self).counters().contains_key(workspace_id@) ==> final(self).counters() == old(self).counters(),
            old(self).counters().contains_key(workspace_id@) ==> final(self).counters() == old(self).counters().insert(
                workspace_id@,
                IndexState { is_indexing: false, ..old(self).counters()[workspace_id@] },
            ),
            event matches ServerEvent::IndexingError { workspace_id: w, error: e } && w@
                == workspace_id@ && e@ == error.text(),
    {
        let known = match states_get(&self.indexes, workspace_id) {
            Some(state) => Some(state),
            None => None,
        };
        match known {
            Some(state) => {
                states_insert(&mut self.indexes, 
                    String::from_str(workspace_id),
                    IndexState { is_indexing: false, ..state },
                );
            },
            None => {},
        }
        ServerEvent::IndexingError {
            workspace_id: String::from_str(workspace_id),
            error: error.message(),
        }
    }

    /// Where the workspace stands. A workspace counts as indexed once a full
    /// rebuild completed, or if a catalog of an earlier run is stored for
    /// it: `stored_hashes` says whether one is.
    pub fn get_index_status(&mut self, workspace_id: &str, stored_hashes: bool) -> (status:
        IndexStatusResponse)
        requires
            old(self).wf(),
        ensures
            final(self).wf(),
            final(self).same_settings(old(self)),
            final(self).counters() == old(self).counters(),
            final(self).catalogs() == old(self).catalogs(),
            !old(self).counters().contains_key(workspace_id@) ==> status
                == IndexStatusResponse::nothing() && final(self).indexed() == old(self).indexed(),
            old(self).counters().contains_key(workspace_id@) ==> {
                let state = old(self).counters()[workspace_id@];
                &&& status == IndexStatusResponse {
                    indexed: old(self).completed(workspace_id@) || stored_hashes,
                    is_indexing: state.is_indexing,
                    indexed_count: state.indexed_count,
                    total_count: state.total_count,
                    total_size_bytes: state.total_size_bytes,
                }
                &&& final(self).completed(workspace_id@) == status.indexed
                &&& forall|w: Seq<char>|
                    w != workspace_id@ ==> final(self).completed(w) == old(self).completed(w)
            },
    {
        let state = match states_get(&self.indexes, workspace_id) {
            Some(state) => state,
            None => {
                return IndexStatusResponse::default();
            },
        };
        let completed = match flags_get(&self.indexed_workspaces, workspace_id) {
            Some(done) => done,
            None => false,
        };
        let from_store = !completed && stored_hashes;
        if from_store {
            flags_insert(&mut self.indexed_workspaces, String::from_str(workspace_id), true);
        }
        IndexStatusResponse {
            indexed: completed || from_store,
            is_indexing: state.is_indexing,
            indexed_count: state.indexed_count,
            total_count: state.total_count,
            total_size_bytes: state.total_size_bytes,
        }
    }

    /// Whether the file that a change is about is indexed anew: the change
    /// does not take it away, a regular file of `found` bytes stands there,
    /// and it passes the path filter.
    pub open spec fn reindexes(
        &self,
        file_path: Seq<char>,
        workspace_path: Seq<char>,
        change_type: Seq<char>,
        found: Option<u64>,
    ) -> bool {
        &&& change_type != CHANGE_REMOVE@
        &&& found matches Some(size) && indexable(
            joined(workspace_path, file_path),
            file_path,
            true,
            size,
            self.max_file_size,
            string_views(self.exclude_patterns@),
        )
    }

    /// Says what the index does about one changed file. `file_path` is the
    /// path as seen from the workspace at `workspace_path`; `found` is the
    /// size of the regular file that stands there now, if one does.
    ///
    /// Nothing is done for a workspace without an index or while a full
    /// rebuild is under way. Otherwise the documents of the path are deleted
    /// and the path leaves the catalog; the file is indexed anew if it is
    /// still there and passes the filter.
    pub fn reindex_file(
        &mut self,
        workspace_id: &str,
        file_path: &str,
        workspace_path: &str,
        change_type: &str,
        found: Option<u64>,
    ) -> (action: ReindexAction)
        requires
            old(self).wf(),
        ensures
            final(self).wf(),
            final(self).same_settings(old(self)),
            final(self).counters() == old(self).counters(),
            final(self).indexed() == old(self).indexed(),
            !old(self).counters().contains_key(workspace_id@) || old(self).rebuilding(workspace_id@)
                ==> action is Skip && final(self).catalogs() == old(self).catalogs(),
            old(self).counters().contains_key(workspace_id@) && !old(self).rebuilding(workspace_id@)
                ==> {
                let path = joined(workspace_path@, file_path@);
                &&& final(self).catalog(workspace_id@) == old(self).catalog(workspace_id@).remove(
                    path,
                )
                &&& forall|w: Seq<char>|
                    w != workspace_id@ ==> final(self).catalog(w) == old(self).catalog(w)
                &&& if old(self).reindexes(file_path@, workspace_path@, change_type@, found) {
                    action matches ReindexAction::Replace { path: p } && p@ == path
                } else {
                    action matches ReindexAction::Delete { path: p } && p@ == path
                }
            },
    {
        let state = match states_get(&self.indexes, workspace_id) {
            Some(state) => state,
            None => {
                return ReindexAction::Skip;
            },
        };
        if state.is_indexing {
            return ReindexAction::Skip;
        }
        let path = join_path(workspace_path, file_path);
        let mut catalog = match catalogs_remove(&mut self.content_hashes, workspace_id) {
            Some(held) => held,
            None => StringMap::new(),
        };
        let ghost before = recorded(catalog);
        catalog.remove(path.as_str());
        assert(recorded(catalog) =~= before.remove(path@));
        assert(before =~= old(self).catalog(workspace_id@));
        catalogs_insert(&mut self.content_hashes, String::from_str(workspace_id), catalog);
        let again = match found {
            Some(size) => {
                let entry = WalkEntry {
                    path: path.clone(),
                    relative_path: String::from_str(file_path),
                    is_file: true,
                    size,
                };
                !crate::text::str_eq(change_type, CHANGE_REMOVE) && self.accepts(&entry)
            },
            None => false,
        };
        if again {
            ReindexAction::Replace { path }
        } else {
            ReindexAction::Delete { path }
        }
    }

    /// Records that the document of `path` now holds content of this hash.
    pub fn record_document(&mut self, workspace_id: &str, path: &str, hash: String)
        requires
            old(self).wf(),
        ensures
            final(self).wf(),
            final(self).same_settings(old(self)),
            final(self).counters() == old(self).counters(),
            final(self).indexed() == old(self).indexed(),
            final(self).catalog(workspace_id@) == old(self).catalog(workspace_id@).insert(
                path@,
                hash@,
            ),
            forall|w: Seq<char>| w != workspace_id@ ==> final(self).catalog(w) == old(self).catalog(w),
    {
        let mut catalog = match catalogs_remove(&mut self.content_hashes, workspace_id) {
            Some(held) => held,
            None => StringMap::new(),
        };
        let ghost before = recorded(catalog);
        catalog.insert(String::from_str(path), hash);
        assert(recorded(catalog) =~= before.insert(path@, hash@));
        assert(before =~= old(self).catalog(workspace_id@));
        catalogs_insert(&mut self.content_hashes, String::from_str(workspace_id), catalog);
    }

    /// Forgets the index of a workspace. Returns the directory that held
    /// it.
    pub fn remove_index(&mut self, workspace_id: &str) -> (dir: String)
        requires
            old(self).wf(),
        ensures
            final(self).wf(),
            final(self).same_settings(old(self)),
            final(self).counters() == old(self).counters().remove(workspace_id@),
            final(self).catalogs() == old(self).catalogs().remove(workspace_id@),
            final(self).indexed() == old(self).indexed().remove(workspace_id@),
            dir@ == joined(old(self).base_dir@, workspace_id@),
    {
        states_remove(&mut self.indexes, workspace_id);
        catalogs_remove(&mut self.content_hashes, workspace_id);
        flags_remove(&mut self.indexed_workspaces, workspace_id);
        self.index_dir(workspace_id)
    }
}

/// The paths of the entries among the first `count` that pass the filter,
/// in their order, and no more than `limit` of them.
pub open spec fn selected(
    entries: Seq<WalkEntry>,
    count: int,
    max_file_size: usize,
    patterns: Seq<Seq<char>>,
    limit: usize,
) -> Seq<Seq<char>>
    decreases count,
{
    if count <= 0 {
        seq![]
    } else {
        let before = selected(entries, count - 1, max_file_size, patterns, limit);
        if before.len() < limit && passes_filter(entries[count - 1], max_file_size, patterns) {
            before.push(entries[count - 1].path@)
        } else {
            before
        }
    }
}

/// Every selected path is the path of a file of the walk that passes the
/// path filter.
pub proof fn lemma_selected_pass(
    entries: Seq<WalkEntry>,
    count: int,
    max_file_size: usize,
    patterns: Seq<Seq<char>>,
    limit: usize,
    path: Seq<char>,
)
    requires
        0 <= count <= entries.len(),
        selected(entries, count, max_file_size, patterns, limit).contains(path),
    ensures
        exists|i: int|
            0 <= i < count && (#[trigger] entries[i]).path@ == path && passes_filter(
                entries[i],
                max_file_size,
                patterns,
            ),
    decreases count,
{
    if count > 0 {
        let before = selected(entries, count - 1, max_file_size, patterns, limit);
        let now = selected(entries, count, max_file_size, patterns, limit);
        let k = choose|k: int| 0 <= k < now.len() && now[k] == path;
        if k < before.len() {
            assert(before[k] == path);
            lemma_selected_pass(entries, count - 1, max_file_size, patterns, limit, path);
        } else {
            assert(entries[count - 1].path@ == path);
        }
    }
}

/// Unless the largest number of files is reached, every file of the walk
/// that passes the path filter is selected.
pub proof fn lemma_passing_are_selected(
    entries: Seq<WalkEntry>,
    count: int,
    max_file_size: usize,
    patterns: Seq<Seq<char>>,
    limit: usize,
    i: int,
)
    requires
        0 <= i < count <= entries.len(),
        selected(entries, count, max_file_size, patterns, limit).len() < limit,
        passes_filter(entries[i], max_file_size, patterns),
    ensures
        selected(entries, count, max_file_size, patterns, limit).contains(entries[i].path@),
    decreases count,
{
    let before = selected(entries, count - 1, max_file_size, patterns, limit);
    let now = selected(entries, count, max_file_size, patterns, limit);
    if i < count - 1 {
        lemma_passing_are_selected(entries, count - 1, max_file_size, patterns, limit, i);
        let k = choose|k: int| 0 <= k < before.len() && before[k] == entries[i].path@;
        assert(now[k] == entries[i].path@);
    } else {
        assert(now[now.len() - 1] == entries[i].path@);
    }
}

impl IndexManager {
    /// The files of a walk that go into the index: those that pass the
    /// filter, in the order of the walk, up to the largest number of files
    /// that is indexed for one workspace.
    pub fn select_indexable(&self, entries: &Vec<WalkEntry>) -> (paths: Vec<String>)
        ensures
            string_views(paths@) == selected(
                entries@,
                entries.len() as int,
                self.max_file_size,
                string_views(self.exclude_patterns@),
                self.max_indexed_files,
            ),
    {
        let mut paths: Vec<String> = Vec::new();
        let mut i: usize = 0;
        assert(string_views(paths@) =~= seq![]);
        while i < entries.len()
            invariant
                i <= entries.len(),
                string_views(paths@) == selected(
                    entries@,
                    i as int,
                    self.max_file_size,
                    string_views(self.exclude_patterns@),
                    self.max_indexed_files,
                ),
            decreases entries.len() - i,
        {
            if paths.len() < self.max_indexed_files && self.accepts(&entries[i]) {
                let ghost before = paths@;
                paths.push(entries[i].path.clone());
                assert(string_views(paths@) =~= string_views(before).push(entries@[i as int].path@));
            }
            i += 1;
        }
        paths
    }

    /// What a scan records: the content hash of each file that the path
    /// filter selects from a walk and whose hash was read.
    pub open spec fn scanned(&self, walked: Seq<WalkEntry>, hashes: StringMap<String>) -> Map<
        Seq<char>,
        Seq<char>,
    > {
        recorded(hashes).restrict(
            selected(
                walked,
                walked.len() as int,
                self.max_file_size,
                string_views(self.exclude_patterns@),
                self.max_indexed_files,
            ).to_set(),
        )
    }

    /// Makes the scan of a walk: of the hashes that were read, those of the
    /// files that the path filter selects.
    pub fn scan(&self, walked: &Vec<WalkEntry>, hashes: &StringMap<String>) -> (scan: StringMap<String>)
        requires
            hashes.wf(),
        ensures
            scan.wf(),
            recorded(scan) == self.scanned(walked@, *hashes),
    {
        let paths = self.select_indexable(walked);
        let mut scan: StringMap<String> = StringMap::new();
        let mut i: usize = 0;
        assert(recorded(scan) =~= recorded(*hashes).restrict(
            string_views(paths@).take(0).to_set(),
        ));
        while i < paths.len()
            invariant
                i <= paths.len(),
                scan.wf(),
                hashes.wf(),
                recorded(scan) == recorded(*hashes).restrict(
                    string_views(paths@).take(i as int).to_set(),
                ),
            decreases paths.len() - i,
        {
            let ghost before = recorded(scan);
            let ghost path = paths@[i as int]@;
            let ghost seen = string_views(paths@).take(i as int);
            proof {
                assert(string_views(paths@).take(i + 1) =~= seen.push(path));
                lemma_push_to_set(seen, path);
            }
            match hashes.get(paths[i].as_str()) {
                Some(hash) => {
                    scan.insert(paths[i].clone(), hash.clone());
                    assert(recorded(scan) =~= before.insert(path, hash@));
                    assert(recorded(*hashes)[path] == hash@);
                    assert(before.insert(path, hash@) =~= recorded(*hashes).restrict(
                        seen.to_set().insert(path),
                    ));
                },
                None => {
                    assert(!recorded(*hashes).contains_key(path));
                    assert(before =~= recorded(*hashes).restrict(seen.to_set().insert(path)));
                },
            }
            i += 1;
        }
        assert(string_views(paths@).take(i as int) =~= string_views(paths@));
        scan
    }
}

/// A scan holds only files that the walk found and that pass the path
/// filter: a file that is empty, over the size cap, in an excluded
/// directory, of no indexed name or excluded by the user is in no scan, and
/// so in no plan and in no catalog that a rebuild leaves.
pub proof fn lemma_scan_keeps_to_the_filter(
    manager: IndexManager,
    walked: Seq<WalkEntry>,
    hashes: StringMap<String>,
    path: Seq<char>,
)
    requires
        manager.scanned(walked, hashes).contains_key(path),
    ensures
        recorded(hashes).contains_key(path),
        manager.scanned(walked, hashes)[path] == recorded(hashes)[path],
        exists|i: int|
            0 <= i < walked.len() && (#[trigger] walked[i]).path@ == path && passes_filter(
                walked[i],
                manager.max_file_size,
                string_views(manager.exclude_patterns@),
            ),
{
    lemma_selected_pass(
        walked,
        walked.len() as int,
        manager.max_file_size,
        string_views(manager.exclude_patterns@),
        manager.max_indexed_files,
        path,
    );
}

/// Unless the largest number of files is reached, a scan holds every file
/// of the walk that passes the path filter and whose hash was read.
pub proof fn lemma_scan_is_complete(
    manager: IndexManager,
    walked: Seq<WalkEntry>,
    hashes: StringMap<String>,
    i: int,
)
    requires
        0 <= i < walked.len(),
        passes_filter(walked[i], manager.max_file_size, string_views(manager.exclude_patterns@)),
        recorded(hashes).contains_key(walked[i].path@),
        selected(
            walked,
            walked.len() as int,
            manager.max_file_size,
            string_views(manager.exclude_patterns@),
            manager.max_indexed_files,
        ).len() < manager.max_indexed_files,
    ensures
        manager.scanned(walked, hashes).contains_key(walked[i].path@),
{
    lemma_passing_are_selected(
        walked,
        walked.len() as int,
        manager.max_file_size,
        string_views(manager.exclude_patterns@),
        manager.max_indexed_files,
        i,
    );
}

} // verus!
