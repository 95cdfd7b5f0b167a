//! Requests to index and to search.

use crate::config::{is_supported_extension, supported_extension, MAX_SEARCH_QUERY_LENGTH};
use crate::error::AppError;
use crate::embedder::EmbedFile;
use crate::collections::string_views;
use crate::indexer::{
    indexable, meets_filter, passes_filter, IndexStatusResponse, WalkEntry, CHANGE_REMOVE,
};
use crate::paths::{extension, extension_of, forward_slashes, make_relative, relative_to, with_forward_slashes};
use crate::text::{chars_of, concat, string_from_chars, to_lowercase};
use crate::lang::{detect_language, language_tag};
use crate::state::ServerEvent;
use crate::text::{decimal_text, format_decimal, lowercase, trim, trimmed};
use vstd::prelude::*;
use vstd::string::{StrSliceExecFns, StringExecFns};

verus! {

/// Most results that a semantic search returns.
pub const MAX_SEARCH_LIMIT: usize = 1000;

/// Results that a semantic search returns if the client names no number.
pub const DEFAULT_SEARCH_LIMIT: usize = 20;

/// The text that every query of a semantic search is prefixed with before
/// it is embedded.
pub const QUERY_INSTRUCTION: &'static str =
    "Instruct: Retrieve semantically similar source code or documentation\nQuery: ";

/// What a client is told of an empty query.
pub const EMPTY_QUERY: &'static str = "Search query must not be empty";

/// What a client is told of an empty pattern.
pub const EMPTY_PATTERN: &'static str = "Grep pattern must not be empty";

/// What is wrong with a query or pattern, if anything: it is empty once
/// trimmed, or it has more characters than are allowed.
pub open spec fn query_fault(text: Seq<char>, empty: Seq<char>, kind: Seq<char>) -> Option<Seq<char>> {
    if trimmed(text).len() == 0 {
        Some(empty)
    } else if text.len() > MAX_SEARCH_QUERY_LENGTH {
        Some(
            kind + " too long ("@ + decimal_text(text.len()) + " chars). Maximum allowed is "@
                + decimal_text(MAX_SEARCH_QUERY_LENGTH as nat) + "."@,
        )
    } else {
        None
    }
}

fn check_text(text: &str, empty: &'static str, kind: &'static str) -> (r: Result<(), AppError>)
    ensures
        match query_fault(text@, empty@, kind@) {
            Some(fault) => r matches Err(AppError::BadRequest(m)) && m@ == fault,
            None => r is Ok,
        },
{
    if trim(text).as_str().is_empty() {
        return Err(AppError::BadRequest(String::from_str(empty)));
    }
    let length = text.unicode_len();
    if length > MAX_SEARCH_QUERY_LENGTH {
        let mut message = String::from_str(kind);
        message.append(" too long (");
        message.append(format_decimal(length as u64).as_str());
        message.append(" chars). Maximum allowed is ");
        message.append(format_decimal(MAX_SEARCH_QUERY_LENGTH as u64).as_str());
        message.append(".");
        return Err(AppError::BadRequest(message));
    }
    Ok(())
}

/// Checks a search query before the index is touched.
pub fn validate_query(query: &str) -> (r: Result<(), AppError>)
    ensures
        match query_fault(query@, EMPTY_QUERY@, "Search query"@) {
            Some(fault) => r matches Err(AppError::BadRequest(m)) && m@ == fault,
            None => r is Ok,
        },
{
    check_text(query, EMPTY_QUERY, "Search query")
}

/// Checks a grep pattern before any file is read.
pub fn validate_pattern(pattern: &str) -> (r: Result<(), AppError>)
    ensures
        match query_fault(pattern@, EMPTY_PATTERN@, "Grep pattern"@) {
            Some(fault) => r matches Err(AppError::BadRequest(m)) && m@ == fault,
            None => r is Ok,
        },
{
    check_text(pattern, EMPTY_PATTERN, "Grep pattern")
}

/// The number of results for a semantic search: what the client asked for,
/// 20 if it asked for nothing, and in any case at least 1 and at most 1000.
pub open spec fn clamped_limit(limit: Option<u64>) -> usize {
    match limit {
        None => DEFAULT_SEARCH_LIMIT,
        Some(n) => if n < 1 {
            1
        } else if n > MAX_SEARCH_LIMIT {
            MAX_SEARCH_LIMIT
        } else {
            n as usize
        },
    }
}

/// The number of results for a semantic search.
pub fn clamp_limit(limit: Option<u64>) -> (r: usize)
    ensures
        r == clamped_limit(limit),
        1 <= r <= MAX_SEARCH_LIMIT,
{
    match limit {
        None => DEFAULT_SEARCH_LIMIT,
        Some(n) => {
            if n < 1 {
                1
            } else if n > MAX_SEARCH_LIMIT as u64 {
                MAX_SEARCH_LIMIT
            } else {
                n as usize
            }
        },
    }
}

/// The query as it is embedded: the instruction, then the query.
pub fn instructed_query(query: &str) -> (r: String)
    ensures
        r@ == QUERY_INSTRUCTION@ + query@,
{
    concat(QUERY_INSTRUCTION, query)
}

/// Whether files of this extension, given in lowercase, are embedded.
pub fn is_embeddable_ext(ext: &str) -> (r: bool)
    ensures
        r == supported_extension(ext@),
{
    is_supported_extension(ext)
}

/// The language tag under which a file of this extension is embedded.
pub fn detect_language_for_embedding(ext: &str) -> (tag: String)
    ensures
        tag@ == language_tag(lowercase(ext@)),
{
    String::from_str(detect_language(ext))
}

/// What a request to index a workspace is answered with.
#[derive(Clone, Copy, PartialEq, Eq, Structural)]
pub enum IndexRequest {
    /// A rebuild is under way; none is started.
    AlreadyIndexing,
    /// A rebuild is started in the background.
    Started,
}

impl IndexRequest {
    /// The status text of the answer.
    pub open spec fn label(&self) -> Seq<char> {
        match self {
            IndexRequest::AlreadyIndexing => "already_indexing"@,
            IndexRequest::Started => "indexing_started"@,
        }
    }

    /// The status text of the answer.
    pub fn status(&self) -> (text: &'static str)
        ensures
            text@ == self.label(),
    {
        match self {
            IndexRequest::AlreadyIndexing => "already_indexing",
            IndexRequest::Started => "indexing_started",
        }
    }
}

/// Answers a request to index: a workspace that is being rebuilt is not
/// rebuilt again.
pub fn index_workspace(status: &IndexStatusResponse) -> (answer: IndexRequest)
    ensures
        answer == (if status.is_indexing {
            IndexRequest::AlreadyIndexing
        } else {
            IndexRequest::Started
        }),
{
    if status.is_indexing {
        IndexRequest::AlreadyIndexing
    } else {
        IndexRequest::Started
    }
}

/// What background indexing leaves to be done once both indexes were tried.
pub struct BackgroundOutcome {
    /// The statistics to record for the workspace: number of files, their
    /// size, and that it is indexed.
    pub stats: Option<(usize, u64, bool)>,
    /// The events to send, in order.
    pub events: Vec<ServerEvent>,
}

/// The events after background indexing of `workspace_id`: an error event
/// for each index that failed, then the event that search is ready if one
/// of the two indexes succeeded.
pub open spec fn background_events(
    workspace_id: Seq<char>,
    lexical: Result<IndexStatusResponse, AppError>,
    vector: Result<usize, AppError>,
    events: Seq<ServerEvent>,
) -> bool {
    let lexical_errors: int = if lexical is Err {
        1
    } else {
        0
    };
    let vector_errors: int = if vector is Err {
        1
    } else {
        0
    };
    let ready: int = if lexical is Ok || vector is Ok {
        1
    } else {
        0
    };
    &&& events.len() == lexical_errors + vector_errors + ready
    &&& forall|i: int| 0 <= i < events.len() ==> (#[trigger] events[i]).subject() == workspace_id
    &&& lexical matches Err(e) ==> (events[0] matches ServerEvent::IndexingError { error, .. }
        && error@ == e.text())
    &&& vector matches Err(e) ==> (events[lexical_errors] matches ServerEvent::IndexingError {
        error,
        ..
    } && error@ == "Vector indexing failed: "@ + e.text())
    &&& ready == 1 ==> events[events.len() - 1] is SearchReady
}

/// Sums up background indexing: `lexical` is how the rebuild of the lexical
/// index ended, with the status it left; `vector` is how the rebuild of the
/// vector index ended, with its number of chunks.
pub fn spawn_background_indexing(
    workspace_id: &str,
    lexical: Result<IndexStatusResponse, AppError>,
    vector: Result<usize, AppError>,
) -> (outcome: BackgroundOutcome)
    ensures
        outcome.stats == (match lexical {
            Ok(status) => Some((status.indexed_count, status.total_size_bytes, true)),
            Err(_) => None,
        }),
        background_events(workspace_id@, lexical, vector, outcome.events@),
{
    let mut events: Vec<ServerEvent> = Vec::new();
    let mut any_ok = false;
    let stats = match &lexical {
        Ok(status) => {
            any_ok = true;
            Some((status.indexed_count, status.total_size_bytes, true))
        },
        Err(e) => {
            events.push(
                ServerEvent::IndexingError {
                    workspace_id: String::from_str(workspace_id),
                    error: e.message(),
                },
            );
            None
        },
    };
    match &vector {
        Ok(_) => {
            any_ok = true;
        },
        Err(e) => {
            events.push(
                ServerEvent::IndexingError {
                    workspace_id: String::from_str(workspace_id),
                    error: concat("Vector indexing failed: ", e.message().as_str()),
                },
            );
        },
    }
    if any_ok {
        events.push(ServerEvent::SearchReady { workspace_id: String::from_str(workspace_id) });
    }
    BackgroundOutcome { stats, events }
}

// ---------------------------------------------------------------------------
// Files for embedding
// ---------------------------------------------------------------------------

/// A file is offered for embedding: it passes the path filter, under the
/// configured size cap and the user's patterns, and its extension is
/// supported.
pub open spec fn embeddable(entry: WalkEntry, max_file_size: usize, patterns: Seq<Seq<char>>) -> bool {
    &&& passes_filter(entry, max_file_size, patterns)
    &&& supported_extension(lowercase(extension_of(entry.path@)))
}

/// What the vector index is told of a changed file, of which `found` is the
/// size if a regular file stands there: the change as it is, if the file
/// is offered for embedding, and else that the file is taken away.
pub open spec fn vector_change(
    change_type: Seq<char>,
    found: Option<u64>,
    abs_path: Seq<char>,
    relative_path: Seq<char>,
    max_file_size: usize,
    patterns: Seq<Seq<char>>,
) -> Seq<char> {
    if found matches Some(size) && indexable(
        abs_path,
        relative_path,
        true,
        size,
        max_file_size,
        patterns,
    ) && supported_extension(lowercase(extension_of(abs_path))) {
        change_type
    } else {
        CHANGE_REMOVE@
    }
}

/// Says what the vector index is told of a changed file: a file that is
/// not there, or that is not offered for embedding, counts as taken away,
/// so that it has no chunk afterwards.
pub fn change_for_vectors(
    change_type: &str,
    found: Option<u64>,
    abs_path: &str,
    relative_path: &str,
    max_file_size: usize,
    patterns: &[String],
) -> (change: String)
    ensures
        change@ == vector_change(
            change_type@,
            found,
            abs_path@,
            relative_path@,
            max_file_size,
            string_views(patterns@),
        ),
{
    match found {
        Some(size) => {
            let entry = WalkEntry {
                path: String::from_str(abs_path),
                relative_path: String::from_str(relative_path),
                is_file: true,
                size,
            };
            if is_embeddable(&entry, max_file_size, patterns) {
                String::from_str(change_type)
            } else {
                String::from_str(CHANGE_REMOVE)
            }
        },
        None => String::from_str(CHANGE_REMOVE),
    }
}

/// Whether what a walk found is offered for embedding.
pub fn is_embeddable(entry: &WalkEntry, max_file_size: usize, patterns: &[String]) -> (r: bool)
    ensures
        r == embeddable(*entry, max_file_size, string_views(patterns@)),
{
    if !meets_filter(entry, max_file_size, patterns) {
        return false;
    }
    let chars = chars_of(entry.path.as_str());
    let ext = string_from_chars(extension(chars.as_slice()).as_slice());
    is_embeddable_ext(to_lowercase(ext.as_str()).as_str())
}

/// A file as a walk found and read it: what stands at its path, and its
/// content if it could be read as text.
pub struct ReadFile {
    pub entry: WalkEntry,
    pub content: Option<String>,
}

/// The file is embedded: it is offered for embedding and could be read.
pub open spec fn taken(file: ReadFile, max_file_size: usize, patterns: Seq<Seq<char>>) -> bool {
    embeddable(file.entry, max_file_size, patterns) && file.content is Some
}

/// What is handed on for embedding of a file that was read.
pub open spec fn offers(workspace_path: Seq<char>, file: ReadFile, offered: EmbedFile) -> bool {
    &&& file.content matches Some(content)
    &&& offered.abs_path@ == file.entry.path@
    &&& offered.relative_path@ == forward_slashes(relative_to(workspace_path, file.entry.path@))
    &&& offered.content@ == content@
    &&& offered.language@ == language_tag(lowercase(lowercase(extension_of(file.entry.path@))))
}

/// The positions of the files among the first `count` that are embedded.
pub open spec fn readable(
    files: Seq<ReadFile>,
    count: int,
    max_file_size: usize,
    patterns: Seq<Seq<char>>,
) -> Seq<int>
    decreases count,
{
    if count <= 0 {
        seq![]
    } else if taken(files[count - 1], max_file_size, patterns) {
        readable(files, count - 1, max_file_size, patterns).push(count - 1)
    } else {
        readable(files, count - 1, max_file_size, patterns)
    }
}

/// Every position that `readable` gives is one of a file that is embedded,
/// and every such file has its position there.
pub proof fn lemma_readable(
    files: Seq<ReadFile>,
    count: int,
    max_file_size: usize,
    patterns: Seq<Seq<char>>,
)
    requires
        0 <= count <= files.len(),
    ensures
        forall|k: int|
            0 <= k < readable(files, count, max_file_size, patterns).len() ==> {
                let at = #[trigger] readable(files, count, max_file_size, patterns)[k];
                0 <= at < count && taken(files[at], max_file_size, patterns)
            },
        forall|at: int|
            0 <= at < count && taken(#[trigger] files[at], max_file_size, patterns) ==> readable(
                files,
                count,
                max_file_size,
                patterns,
            ).contains(at),
    decreases count,
{
    if count > 0 {
        lemma_readable(files, count - 1, max_file_size, patterns);
        let before = readable(files, count - 1, max_file_size, patterns);
        let now = readable(files, count, max_file_size, patterns);
        assert forall|at: int|
            0 <= at < count && taken(#[trigger] files[at], max_file_size, patterns) implies now.contains(
            at,
        ) by {
            if at < count - 1 {
                let k = choose|k: int| 0 <= k < before.len() && before[k] == at;
                assert(now[k] == at);
            } else {
                assert(now[now.len() - 1] == at);
            }
        }
    }
}

/// Makes the files for embedding from the files of a workspace that a walk
/// found and read: one for each file that passes the path filter under the
/// configured size cap and the user's patterns, has a supported extension
/// and could be read, in their order, with its path as seen from the
/// workspace and the language of its extension.
pub fn collect_indexable_files_pub(
    workspace_path: &str,
    files: Vec<ReadFile>,
    max_file_size: usize,
    patterns: &[String],
) -> (out: Vec<EmbedFile>)
    ensures
        out.len() == readable(
            files@,
            files.len() as int,
            max_file_size,
            string_views(patterns@),
        ).len(),
        forall|k: int|
            0 <= k < out.len() ==> offers(
                workspace_path@,
                files[readable(files@, files.len() as int, max_file_size, string_views(patterns@))[k]],
                #[trigger] out[k],
            ),
{
    let root = chars_of(workspace_path);
    let mut out: Vec<EmbedFile> = Vec::new();
    let mut i: usize = 0;
    while i < files.len()
        invariant
            i <= files.len(),
            root@ == workspace_path@,
            out.len() == readable(files@, i as int, max_file_size, string_views(patterns@)).len(),
            forall|k: int|
                0 <= k < out.len() ==> offers(
                    workspace_path@,
                    files[readable(files@, i as int, max_file_size, string_views(patterns@))[k]],
                    #[trigger] out[k],
                ),
        decreases files.len() - i,
    {
        let ghost old_out = out@;
        let ghost picks = readable(files@, i as int, max_file_size, string_views(patterns@));
        let wanted = is_embeddable(&files[i].entry, max_file_size, patterns);
        match &files[i].content {
            Some(content) => {
                if wanted {
                    let path = chars_of(files[i].entry.path.as_str());
                    let relative = with_forward_slashes(
                        make_relative(root.as_slice(), path.as_slice()).as_slice(),
                    );
                    let ext = to_lowercase(
                        string_from_chars(extension(path.as_slice()).as_slice()).as_str(),
                    );
                    out.push(
                        EmbedFile {
                            abs_path: files[i].entry.path.clone(),
                            relative_path: string_from_chars(relative.as_slice()),
                            content: content.clone(),
                            language: detect_language_for_embedding(ext.as_str()),
                        },
                    );
                }
            },
            None => {},
        }
        proof {
            let next = readable(files@, i + 1, max_file_size, string_views(patterns@));
            assert forall|k: int| 0 <= k < out.len() implies offers(
                workspace_path@,
                files[next[k]],
                #[trigger] out[k],
            ) by {
                if k < old_out.len() {
                    assert(out[k] == old_out[k]);
                    assert(next[k] == picks[k]);
                }
            }
        }
        i += 1;
    }
    out
}

} // verus!
