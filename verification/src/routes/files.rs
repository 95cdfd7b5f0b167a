//! Requests about files.

use crate::collections::string_views;
use crate::error::AppError;
use crate::lang::{detect_language as language_of, language_tag};
use crate::text::{
    chars_of, concat, contains_text, copy_range, has_infix, lowercase, str_eq, string_from_chars,
    to_lowercase,
};
use crate::workspace::FileEntry;
use vstd::prelude::*;
use vstd::string::StringExecFns;

verus! {

/// What to list.
pub struct ListFilesQuery {
    pub path: Option<String>,
    pub recursive: Option<bool>,
    pub show_hidden: Option<bool>,
    pub max_depth: Option<usize>,
}

/// A request that names one path.
pub struct FilePathRequest {
    pub path: String,
}

/// A path to read, given in the address of the request.
pub struct ReadFileQuery {
    pub path: String,
}

/// A request to write a file or to create one.
pub struct WriteFileRequest {
    pub path: String,
    pub content: String,
}

/// A request to rename what stands at a path.
pub struct RenameRequest {
    pub old_path: String,
    pub new_path: String,
}

/// A request to move what stands at a path.
pub struct MoveRequest {
    pub source: String,
    pub destination: String,
}

/// A request to copy what stands at a path.
pub struct CopyRequest {
    pub source: String,
    pub destination: String,
}

/// A search for files by name.
pub struct SearchFilesRequest {
    pub query: String,
    pub file_types: Option<Vec<String>>,
    pub limit: usize,
}

/// The answer to a request to read a file.
pub struct ReadFileResponse {
    pub path: String,
    pub content: String,
    pub size: u64,
    pub language: String,
    pub encoding: String,
}

/// What a listing covers: the directory, whether it goes into
/// subdirectories, whether it shows hidden entries, and how deep it goes.
pub struct ListOptions {
    pub path: String,
    pub recursive: bool,
    pub show_hidden: bool,
    pub max_depth: usize,
}

/// Results of a file search if the client names no number.
pub fn default_limit() -> (limit: usize)
    ensures
        limit == 100,
{
    100
}

/// The language tag of a file extension.
pub fn detect_language(extension: &str) -> (tag: String)
    ensures
        tag@ == language_tag(lowercase(extension@)),
{
    String::from_str(language_of(extension))
}

/// What a listing covers, with the defaults for what the client left out:
/// the root of the workspace, one level, nothing hidden.
pub fn list_files(query: &ListFilesQuery) -> (options: ListOptions)
    ensures
        options.path@ == (match query.path {
            Some(p) => p@,
            None => Seq::<char>::empty(),
        }),
        options.recursive == (match query.recursive {
            Some(r) => r,
            None => false,
        }),
        options.show_hidden == (match query.show_hidden {
            Some(h) => h,
            None => false,
        }),
        options.max_depth == (match query.max_depth {
            Some(d) => d,
            None => 1,
        }),
{
    ListOptions {
        path: match &query.path {
            Some(p) => p.clone(),
            None => String::new(),
        },
        recursive: match query.recursive {
            Some(r) => r,
            None => false,
        },
        show_hidden: match query.show_hidden {
            Some(h) => h,
            None => false,
        },
        max_depth: match query.max_depth {
            Some(d) => d,
            None => 1,
        },
    }
}

/// What a client is told of a file that is too large to read.
pub const TOO_LARGE: &'static str = "File too large to read";

/// The encoding in which files are read.
pub const UTF8: &'static str = "utf-8";

/// Whether the file at `file_path` may be read: a regular file stands
/// there, and it is not larger than `max_file_size`.
pub fn check_readable(file_path: &str, is_file: bool, size: u64, max_file_size: usize) -> (r: Result<
    (),
    AppError,
>)
    ensures
        !is_file ==> (r matches Err(AppError::FileNotFound(p)) && p@ == file_path@),
        is_file && size > max_file_size ==> (r matches Err(AppError::BadRequest(m)) && m@
            == TOO_LARGE@),
        is_file && size <= max_file_size ==> r is Ok,
{
    if !is_file {
        return Err(AppError::FileNotFound(String::from_str(file_path)));
    }
    if size > max_file_size as u64 {
        return Err(AppError::BadRequest(String::from_str(TOO_LARGE)));
    }
    Ok(())
}

/// The answer to a request to read a file: its content, with the language
/// that its extension tells.
pub fn read_file_inner(file_path: &str, content: String, size: u64, extension: &str) -> (r:
    ReadFileResponse)
    ensures
        r.path@ == file_path@,
        r.content == content,
        r.size == size,
        r.language@ == language_tag(lowercase(extension@)),
        r.encoding@ == UTF8@,
{
    ReadFileResponse {
        path: String::from_str(file_path),
        content,
        size,
        language: detect_language(extension),
        encoding: String::from_str(UTF8),
    }
}

/// Whether a file may be created at `path`: nothing stands there yet.
pub fn create_file(path: &str, exists: bool) -> (r: Result<(), AppError>)
    ensures
        exists ==> (r matches Err(AppError::BadRequest(m)) && m@ == "File already exists: "@ + path@),
        !exists ==> r is Ok,
{
    if exists {
        return Err(AppError::BadRequest(concat("File already exists: ", path)));
    }
    Ok(())
}

/// Whether what is to be deleted, renamed, moved or copied is there.
pub fn check_source(path: &str, exists: bool) -> (r: Result<(), AppError>)
    ensures
        !exists ==> (r matches Err(AppError::FileNotFound(p)) && p@ == path@),
        exists ==> r is Ok,
{
    if !exists {
        return Err(AppError::FileNotFound(String::from_str(path)));
    }
    Ok(())
}

/// What a request to create a directory comes to.
#[derive(Clone, Copy, PartialEq, Eq, Structural)]
pub enum DirectoryStep {
    /// The directory is there already; nothing is done.
    AlreadyExists,
    /// The directory is created, with the directories above it.
    Create,
}

/// Says what a request to create a directory at `path` comes to.
pub fn create_directory(path: &str, exists: bool, is_dir: bool) -> (r: Result<DirectoryStep, AppError>)
    ensures
        exists && is_dir ==> r == Ok::<DirectoryStep, AppError>(DirectoryStep::AlreadyExists),
        exists && !is_dir ==> (r matches Err(AppError::BadRequest(m)) && m@
            == "Path is a file, not a directory: "@ + path@),
        !exists ==> r == Ok::<DirectoryStep, AppError>(DirectoryStep::Create),
{
    if exists {
        if is_dir {
            return Ok(DirectoryStep::AlreadyExists);
        }
        return Err(AppError::BadRequest(concat("Path is a file, not a directory: ", path)));
    }
    Ok(DirectoryStep::Create)
}

// ---------------------------------------------------------------------------
// Search by name
// ---------------------------------------------------------------------------

/// Position of the first character of `s` from `from` on that is no dot.
pub open spec fn skip_dots(s: Seq<char>, from: int) -> int
    decreases s.len() - from,
{
    if 0 <= from < s.len() && s[from] == '.' {
        skip_dots(s, from + 1)
    } else {
        from
    }
}

/// A file type as it is compared: in lowercase and without leading dots.
pub open spec fn normal_type(file_type: Seq<char>) -> Seq<char> {
    let lower = lowercase(file_type);
    lower.subrange(skip_dots(lower, 0), lower.len() as int)
}

/// The file types of a request as they are compared.
pub open spec fn normal_types(file_types: Seq<String>) -> Seq<Seq<char>> {
    file_types.map_values(|t: String| normal_type(t@))
}

/// The extension of an entry as it is compared: in lowercase, empty if the
/// entry has none.
pub open spec fn compared_extension(entry: FileEntry) -> Seq<char> {
    match entry.extension {
        Some(e) => lowercase(e@),
        None => lowercase(Seq::<char>::empty()),
    }
}

/// An entry is found by a search: its name or its path, in lowercase, holds
/// the query, given in lowercase; and if file types are given and there is
/// at least one, its extension is one of them.
pub open spec fn found_by(entry: FileEntry, query: Seq<char>, types: Option<Seq<Seq<char>>>) -> bool {
    &&& contains_text(lowercase(entry.name@), query) || contains_text(
        lowercase(entry.relative_path@),
        query,
    )
    &&& match types {
        Some(list) => list.len() == 0 || list.contains(compared_extension(entry)),
        None => true,
    }
}

/// The entries among the first `count` that a search finds, in their
/// order, and no more than `limit` of them.
pub open spec fn found_among(
    entries: Seq<FileEntry>,
    count: int,
    query: Seq<char>,
    types: Option<Seq<Seq<char>>>,
    limit: usize,
) -> Seq<FileEntry>
    decreases count,
{
    if count <= 0 {
        seq![]
    } else {
        let before = found_among(entries, count - 1, query, types, limit);
        if before.len() < limit && found_by(entries[count - 1], query, types) {
            before.push(entries[count - 1])
        } else {
            before
        }
    }
}

/// What a request searches for, in the form in which it is compared.
pub open spec fn request_types(req: SearchFilesRequest) -> Option<Seq<Seq<char>>> {
    match req.file_types {
        Some(list) => Some(normal_types(list@)),
        None => None,
    }
}

fn normalize_type(file_type: &str) -> (out: String)
    ensures
        out@ == normal_type(file_type@),
{
    let lower = chars_of(to_lowercase(file_type).as_str());
    let mut from: usize = 0;
    while from < lower.len() && lower[from] == '.'
        invariant
            from <= lower.len(),
            skip_dots(lower@, 0) == skip_dots(lower@, from as int),
        decreases lower.len() - from,
    {
        from += 1;
    }
    string_from_chars(copy_range(lower.as_slice(), from, lower.len()).as_slice())
}

fn matches_entry(entry: &FileEntry, query: &Vec<char>, types: &Option<Vec<String>>) -> (r: bool)
    ensures
        r == found_by(
            *entry,
            query@,
            match types {
                Some(list) => Some(string_views(list@)),
                None => None,
            },
        ),
{
    let name = chars_of(to_lowercase(entry.name.as_str()).as_str());
    let path = chars_of(to_lowercase(entry.relative_path.as_str()).as_str());
    if !has_infix(name.as_slice(), query.as_slice()) && !has_infix(
        path.as_slice(),
        query.as_slice(),
    ) {
        return false;
    }
    match types {
        None => true,
        Some(list) => {
            if list.len() == 0 {
                return true;
            }
            let ext = match &entry.extension {
                Some(e) => to_lowercase(e.as_str()),
                None => to_lowercase(""),
            };
            proof {
                assert(""@ =~= Seq::<char>::empty()) by {
                    reveal_strlit("");
                }
            }
            let mut i: usize = 0;
            while i < list.len()
                invariant
                    i <= list.len(),
                    list.len() > 0,
                    *types == Some(*list),
                    contains_text(lowercase(entry.name@), query@) || contains_text(
                        lowercase(entry.relative_path@),
                        query@,
                    ),
                    ext@ == compared_extension(*entry),
                    forall|j: int| 0 <= j < i ==> string_views(list@)[j] != ext@,
                decreases list.len() - i,
            {
                if str_eq(list[i].as_str(), ext.as_str()) {
                    assert(string_views(list@)[i as int] == ext@);
                    return true;
                }
                i += 1;
            }
            false
        },
    }
}

/// Finds files by name: the entries of `entries`, in their order, whose
/// name or path holds the query without regard to case and whose extension
/// is one of the file types, if any are given; no more than the limit of
/// the request.
pub fn search_files(entries: &Vec<FileEntry>, req: &SearchFilesRequest) -> (found: Vec<FileEntry>)
    ensures
        found@ == found_among(
            entries@,
            entries.len() as int,
            lowercase(req.query@),
            request_types(*req),
            req.limit,
        ),
{
    let query = chars_of(to_lowercase(req.query.as_str()).as_str());
    let types: Option<Vec<String>> = match &req.file_types {
        Some(list) => {
            let mut normal: Vec<String> = Vec::new();
            let mut i: usize = 0;
            while i < list.len()
                invariant
                    i <= list.len(),
                    string_views(normal@) == normal_types(list@).take(i as int),
                decreases list.len() - i,
            {
                let ghost before = normal@;
                normal.push(normalize_type(list[i].as_str()));
                assert(string_views(normal@) =~= string_views(before).push(normal_type(list@[i as int]@)));
                assert(normal_types(list@).take(i + 1) =~= normal_types(list@).take(i as int).push(
                    normal_type(list@[i as int]@),
                ));
                i += 1;
            }
            assert(normal_types(list@).take(i as int) =~= normal_types(list@));
            Some(normal)
        },
        None => None,
    };
    let ghost wanted = request_types(*req);
    let mut found: Vec<FileEntry> = Vec::new();
    let mut i: usize = 0;
    while i < entries.len()
        invariant
            i <= entries.len(),
            query@ == lowercase(req.query@),
            wanted == request_types(*req),
            wanted == (match types {
                Some(list) => Some(string_views(list@)),
                None => None::<Seq<Seq<char>>>,
            }),
            found@ == found_among(entries@, i as int, query@, wanted, req.limit),
        decreases entries.len() - i,
    {
        if found.len() < req.limit && matches_entry(&entries[i], &query, &types) {
            found.push(entries[i].clone());
        }
        i += 1;
    }
    found
}

} // verus!
