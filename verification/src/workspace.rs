//! The catalog of workspaces.
//!
//! A workspace is a registered root directory. The catalog keeps the
//! workspaces by id; the caller stores it after every change and resolves
//! paths on disk.

use crate::collections::string_views;
use crate::config::{
    excluded_directory, is_excluded_directory, matches_user_exclude_patterns, matches_user_patterns,
};
use crate::error::AppError;
use crate::paths::{
    file_name, file_name_of, forward_slashes, is_within, join_path, joined, keeps_below,
    last_index_of, lies_within, make_relative, relative_to, stays_below, with_forward_slashes,
};
use crate::text::{
    chars_le, chars_of, concat, copy_range, lemma_lex_total, lex_le, lowercase, str_eq, string_from_chars,
    to_lowercase,
};
use vstd::prelude::*;
use vstd::string::StringExecFns;

verus! {

/// A point in time: seconds since the beginning of 1970 and nanoseconds
/// within the second.
#[derive(Clone, Copy, PartialEq, Eq, Structural)]
pub struct Timestamp {
    pub secs: i64,
    pub nanos: u32,
}

impl Timestamp {
    /// `self` is earlier than `other`.
    pub open spec fn before(&self, other: &Timestamp) -> bool {
        self.secs < other.secs || (self.secs == other.secs && self.nanos < other.nanos)
    }

    /// Whether `self` is earlier than `other`.
    pub fn is_before(&self, other: &Timestamp) -> (r: bool)
        ensures
            r == self.before(other),
    {
        self.secs < other.secs || (self.secs == other.secs && self.nanos < other.nanos)
    }
}

/// A registered root directory.
pub struct Workspace {
    pub id: String,
    pub name: String,
    /// The root, as an absolute path with links resolved.
    pub path: String,
    pub created_at: Timestamp,
    pub last_accessed: Timestamp,
    pub is_active: bool,
    pub indexed: bool,
    pub total_files: usize,
    pub total_size_bytes: u64,
}

impl Clone for Workspace {
    fn clone(&self) -> (copy: Self)
        ensures
            copy == *self,
    {
        Workspace {
            id: self.id.clone(),
            name: self.name.clone(),
            path: self.path.clone(),
            created_at: self.created_at,
            last_accessed: self.last_accessed,
            is_active: self.is_active,
            indexed: self.indexed,
            total_files: self.total_files,
            total_size_bytes: self.total_size_bytes,
        }
    }
}

impl Workspace {
    /// The root of the workspace.
    pub fn root_path(&self) -> (path: &str)
        ensures
            path@ == self.path@,
    {
        self.path.as_str()
    }
}

/// An entry of a directory listing.
pub struct FileEntry {
    pub name: String,
    pub path: String,
    pub relative_path: String,
    pub is_dir: bool,
    pub is_symlink: bool,
    pub size: u64,
    pub modified: Option<Timestamp>,
    pub created: Option<Timestamp>,
    pub extension: Option<String>,
    pub children_count: Option<usize>,
    pub is_hidden: bool,
}

impl Clone for FileEntry {
    fn clone(&self) -> (copy: Self)
        ensures
            copy == *self,
    {
        FileEntry {
            name: self.name.clone(),
            path: self.path.clone(),
            relative_path: self.relative_path.clone(),
            is_dir: self.is_dir,
            is_symlink: self.is_symlink,
            size: self.size,
            modified: self.modified,
            created: self.created,
            extension: match &self.extension {
                Some(e) => Some(e.clone()),
                None => None,
            },
            children_count: self.children_count,
            is_hidden: self.is_hidden,
        }
    }
}

/// What is known of one file.
pub struct FileStats {
    pub path: String,
    pub size: u64,
    pub is_dir: bool,
    pub is_file: bool,
    pub is_symlink: bool,
    pub modified: Option<Timestamp>,
    pub created: Option<Timestamp>,
    pub accessed: Option<Timestamp>,
    pub permissions: Option<String>,
    pub extension: Option<String>,
}

// ---------------------------------------------------------------------------
// The map of workspaces
// ---------------------------------------------------------------------------

/// `dashmap::DashMap`, a map that may be shared between threads. Nothing of
/// its inside is known here.
#[verifier::external_type_specification]
#[verifier::external_body]
#[verifier::reject_recursive_types(K)]
#[verifier::reject_recursive_types(V)]
#[verifier::reject_recursive_types(S)]
pub struct ExDashMap<K, V, S>(dashmap::DashMap<K, V, S>);

/// The workspaces that the map holds, by key.
pub uninterp spec fn catalog_entries(map: dashmap::DashMap<String, Workspace>) -> Map<
    Seq<char>,
    Workspace,
>;

/// `DashMap::new`: a map that holds nothing.
#[verifier::external_body]
fn catalog_new() -> (map: dashmap::DashMap<String, Workspace>)
    ensures
        catalog_entries(map) =~= Map::empty(),
{
    dashmap::DashMap::new()
}

/// `DashMap::insert`: afterwards the key has this value, and every other
/// key what it had.
#[verifier::external_body]
fn catalog_insert(map: &mut dashmap::DashMap<String, Workspace>, key: String, value: Workspace)
    ensures
        catalog_entries(*final(map)) == catalog_entries(*old(map)).insert(key@, value),
{
    map.insert(key, value);
}

/// `DashMap::get`, with the value copied out: the value of the key, if the
/// map holds the key.
#[verifier::external_body]
fn catalog_get(map: &dashmap::DashMap<String, Workspace>, key: &str) -> (found: Option<Workspace>)
    ensures
        found is Some == catalog_entries(*map).contains_key(key@),
        found matches Some(value) ==> value == catalog_entries(*map)[key@],
{
    map.get(key).map(|entry| entry.value().clone())
}

/// `DashMap::remove`: afterwards the map does not hold the key, and every
/// other key has what it had; the result is the value that the key had.
#[verifier::external_body]
fn catalog_remove(map: &mut dashmap::DashMap<String, Workspace>, key: &str) -> (removed: Option<
    Workspace,
>)
    ensures
        catalog_entries(*final(map)) == catalog_entries(*old(map)).remove(key@),
        removed is Some == catalog_entries(*old(map)).contains_key(key@),
        removed matches Some(value) ==> value == catalog_entries(*old(map))[key@],
{
    map.remove(key).map(|pair| pair.1)
}

/// `DashMap::iter`, with the keys copied out: every key of the map, once,
/// in an order that is not fixed.
#[verifier::external_body]
fn catalog_keys(map: &dashmap::DashMap<String, Workspace>) -> (keys: Vec<String>)
    ensures
        string_views(keys@).no_duplicates(),
        string_views(keys@).to_set() == catalog_entries(*map).dom(),
{
    map.iter().map(|entry| entry.key().clone()).collect()
}

// ---------------------------------------------------------------------------
// Identity
// ---------------------------------------------------------------------------

/// `uuid::Uuid::new_v4`, written out with `to_string`: a random id in the
/// hyphenated form, which has 36 characters.
#[verifier::external_body]
fn random_id() -> (id: String)
    ensures
        id@.len() == 36,
{
    uuid::Uuid::new_v4().to_string()
}

// ---------------------------------------------------------------------------
// The manager
// ---------------------------------------------------------------------------

/// What a caller is told where the id drawn for a new workspace is the id
/// of a registered one.
pub const ID_IN_USE: &'static str = "Workspace id is already in use";

/// The catalog of workspaces.
pub struct WorkspaceManager {
    pub workspaces: dashmap::DashMap<String, Workspace>,
    pub data_dir: String,
    /// Patterns of names that listings leave out.
    pub user_exclude_patterns: Vec<String>,
}

/// What the caller found on disk for a path of a request.
pub struct PathResolution {
    /// The path below the root of the workspace, made absolute with its
    /// links resolved; for a file that is not there yet, its directory so
    /// resolved, with the name of the file. `None` if neither can be
    /// resolved.
    pub target: Option<String>,
    /// The root of the workspace, so resolved. `None` if it cannot be.
    pub root: Option<String>,
}

/// The file below the data directory that the catalog is stored in.
pub const WORKSPACES_FILE: &'static str = "workspaces.json";

/// The workspaces stored by the first `count` of a list, each under its id;
/// a later one replaces an earlier one of the same id.
pub open spec fn stored_workspaces(list: Seq<Workspace>, count: int) -> Map<Seq<char>, Workspace>
    decreases count,
{
    if count <= 0 {
        Map::empty()
    } else {
        stored_workspaces(list, count - 1).insert(list[count - 1].id@, list[count - 1])
    }
}

/// `list` is in the order of last access, the most recent first.
pub open spec fn recent_first(list: Seq<Workspace>) -> bool {
    forall|i: int, j: int|
        0 <= i < j < list.len() ==> !list[i].last_accessed.before(&list[j].last_accessed)
}

/// Puts a list of workspaces in the order of last access, the most recent
/// first.
pub fn sort_by_recency(items: Vec<Workspace>) -> (sorted: Vec<Workspace>)
    ensures
        sorted@.to_multiset() == items@.to_multiset(),
        recent_first(sorted@),
{
    let mut sorted: Vec<Workspace> = Vec::new();
    let mut i: usize = 0;
    assert(items@.take(0) =~= seq![]);
    while i < items.len()
        invariant
            i <= items.len(),
            sorted@.to_multiset() == items@.take(i as int).to_multiset(),
            recent_first(sorted@),
        decreases items.len() - i,
    {
        let item = items[i].clone();
        let mut at: usize = 0;
        while at < sorted.len() && !sorted[at].last_accessed.is_before(&item.last_accessed)
            invariant
                at <= sorted.len(),
                recent_first(sorted@),
                forall|k: int| 0 <= k < at ==> !sorted[k].last_accessed.before(&item.last_accessed),
            decreases sorted.len() - at,
        {
            at += 1;
        }
        let ghost before = sorted@;
        sorted.insert(at, item);
        proof {
            vstd::seq_lib::to_multiset_insert(before, at as int, item);
            assert(items@.take(i + 1) =~= items@.take(i as int).push(items@[i as int]));
            vstd::seq_lib::to_multiset_build(items@.take(i as int), items@[i as int]);
            assert forall|a: int, b: int| 0 <= a < b < sorted.len() implies !sorted[a].last_accessed.before(
                &sorted[b].last_accessed,
            ) by {
                let a0 = if a < at { a } else { a - 1 };
                let b0 = if b < at { b } else { b - 1 };
                if a == at {
                    assert(sorted[b] == before[b0]);
                    assert(before[at as int].last_accessed.before(&item.last_accessed));
                    if b0 > at {
                        assert(!before[at as int].last_accessed.before(&before[b0].last_accessed));
                    }
                } else if b == at {
                    assert(sorted[a] == before[a0]);
                } else {
                    assert(sorted[a] == before[a0]);
                    assert(sorted[b] == before[b0]);
                }
            }
        }
        i += 1;
    }
    assert(items@.take(i as int) =~= items@);
    sorted
}

impl WorkspaceManager {
    /// The workspaces of the catalog, by id.
    pub open spec fn entries(&self) -> Map<Seq<char>, Workspace> {
        catalog_entries(self.workspaces)
    }

    /// Every workspace is kept under its id, and there are finitely many.
    pub open spec fn wf(&self) -> bool {
        &&& self.entries().dom().finite()
        &&& forall|k: Seq<char>| #[trigger]
            self.entries().contains_key(k) ==> self.entries()[k].id@ == k
    }

    /// No two workspaces have the same root.
    pub open spec fn roots_distinct(&self) -> bool {
        forall|a: Seq<char>, b: Seq<char>|
            self.entries().contains_key(a) && self.entries().contains_key(b) && a != b
                ==> self.entries()[a].path@ != self.entries()[b].path@
    }

    /// Some workspace has this root.
    pub open spec fn has_root(&self, root: Seq<char>) -> bool {
        exists|k: Seq<char>| #[trigger] self.entries().contains_key(k) && self.entries()[k].path@ == root
    }

    /// The settings are those of `other`.
    pub open spec fn same_settings(&self, other: &WorkspaceManager) -> bool {
        self.data_dir == other.data_dir && self.user_exclude_patterns == other.user_exclude_patterns
    }

    /// A catalog that holds the workspaces that were stored.
    pub fn new(data_dir: String, user_exclude_patterns: Vec<String>, stored: Vec<Workspace>) -> (m:
        Self)
        ensures
            m.wf(),
            m.entries() == stored_workspaces(stored@, stored.len() as int),
            m.data_dir == data_dir,
            m.user_exclude_patterns == user_exclude_patterns,
    {
        let mut workspaces = catalog_new();
        let mut i: usize = 0;
        while i < stored.len()
            invariant
                i <= stored.len(),
                catalog_entries(workspaces) == stored_workspaces(stored@, i as int),
                catalog_entries(workspaces).dom().finite(),
                forall|k: Seq<char>| #[trigger]
                    catalog_entries(workspaces).contains_key(k) ==> catalog_entries(workspaces)[k].id@
                        == k,
            decreases stored.len() - i,
        {
            let workspace = stored[i].clone();
            catalog_insert(&mut workspaces, workspace.id.clone(), workspace);
            i += 1;
        }
        WorkspaceManager { workspaces, data_dir, user_exclude_patterns }
    }

    /// The file that the catalog is stored in.
    pub fn workspaces_file(&self) -> (file: String)
        ensures
            file@ == joined(self.data_dir@, WORKSPACES_FILE@),
    {
        join_path(self.data_dir.as_str(), WORKSPACES_FILE)
    }

    /// The workspace of this id.
    pub fn get_workspace(&self, id: &str) -> (r: Result<Workspace, AppError>)
        ensures
            self.entries().contains_key(id@) ==> r == Ok::<Workspace, AppError>(self.entries()[id@]),
            !self.entries().contains_key(id@) ==> (r matches Err(AppError::WorkspaceNotFound(w))
                && w@ == id@),
    {
        match catalog_get(&self.workspaces, id) {
            Some(workspace) => Ok(workspace),
            None => Err(AppError::WorkspaceNotFound(String::from_str(id))),
        }
    }

    /// All workspaces, each once, in an order that is not fixed: what the
    /// caller stores after a change.
    pub fn persist(&self) -> (list: Vec<Workspace>)
        requires
            self.wf(),
        ensures
            list.len() == self.entries().dom().len(),
            forall|i: int|
                0 <= i < list.len() ==> self.entries().contains_key((#[trigger] list[i]).id@)
                    && list[i] == self.entries()[list[i].id@],
            forall|i: int, j: int| 0 <= i < j < list.len() ==> list[i].id@ != list[j].id@,
    {
        let keys = catalog_keys(&self.workspaces);
        proof {
            string_views(keys@).unique_seq_to_set();
        }
        let mut list: Vec<Workspace> = Vec::new();
        let mut i: usize = 0;
        while i < keys.len()
            invariant
                i <= keys.len(),
                self.wf(),
                string_views(keys@).no_duplicates(),
                string_views(keys@).to_set() == self.entries().dom(),
                list.len() == i,
                forall|j: int|
                    0 <= j < i ==> (#[trigger] list[j]).id@ == string_views(keys@)[j]
                        && self.entries().contains_key(list[j].id@) && list[j] == self.entries()[list[j].id@],
            decreases keys.len() - i,
        {
            assert(string_views(keys@)[i as int] == keys@[i as int]@);
            assert(string_views(keys@).to_set().contains(string_views(keys@)[i as int]));
            match catalog_get(&self.workspaces, keys[i].as_str()) {
                Some(workspace) => {
                    list.push(workspace);
                },
                None => {
                    assert(false);
                },
            }
            i += 1;
        }
        list
    }

    /// All workspaces, the most recently accessed first.
    pub fn list_workspaces(&self) -> (list: Vec<Workspace>)
        requires
            self.wf(),
        ensures
            list.len() == self.entries().dom().len(),
            forall|i: int|
                0 <= i < list.len() ==> self.entries().contains_key((#[trigger] list[i]).id@)
                    && list[i] == self.entries()[list[i].id@],
            forall|i: int, j: int| 0 <= i < j < list.len() ==> list[i].id@ != list[j].id@,
            recent_first(list@),
    {
        let all = self.persist();
        let sorted = sort_by_recency(all);
        proof {
            all@.to_multiset_ensures();
            sorted@.to_multiset_ensures();
            assert forall|i: int| 0 <= i < sorted.len() implies self.entries().contains_key(
                (#[trigger] sorted[i]).id@,
            ) && sorted[i] == self.entries()[sorted[i].id@] by {
                assert(sorted@.contains(sorted[i]));
                assert(all@.to_multiset().count(sorted[i]) > 0);
                assert(all@.contains(sorted[i]));
                let j = choose|j: int| 0 <= j < all.len() && all[j] == sorted[i];
                assert(self.entries().contains_key(all[j].id@));
            }
            assert(all@.no_duplicates()) by {
                assert forall|a: int, b: int| 0 <= a < all.len() && 0 <= b < all.len() && a
                    != b implies all[a] != all[b] by {
                    if a < b {
                        assert(all[a].id@ != all[b].id@);
                    } else {
                        assert(all[b].id@ != all[a].id@);
                    }
                }
            }
            all@.lemma_multiset_has_no_duplicates();
            sorted@.lemma_multiset_has_no_duplicates_conv();
            assert forall|i: int, j: int| 0 <= i < j < sorted.len() implies sorted[i].id@
                != sorted[j].id@ by {
                assert(sorted[i] != sorted[j]);
                assert(self.entries().contains_key(sorted[i].id@));
                assert(self.entries().contains_key(sorted[j].id@));
            }
        }
        sorted
    }

    /// Takes a workspace out of the catalog.
    pub fn remove_workspace(&mut self, id: &str) -> (r: Result<(), AppError>)
        requires
            old(self).wf(),
        ensures
            final(self).wf(),
            final(self).same_settings(old(self)),
            final(self).entries() == old(self).entries().remove(id@),
            old(self).entries().contains_key(id@) ==> r is Ok,
            !old(self).entries().contains_key(id@) ==> (r matches Err(AppError::WorkspaceNotFound(w))
                && w@ == id@),
            old(self).roots_distinct() ==> final(self).roots_distinct(),
    {
        match catalog_remove(&mut self.workspaces, id) {
            Some(_) => Ok(()),
            None => Err(AppError::WorkspaceNotFound(String::from_str(id))),
        }
    }

    /// Records what indexing found of a workspace.
    pub fn update_workspace_stats(
        &mut self,
        id: &str,
        total_files: usize,
        total_size_bytes: u64,
        indexed: bool,
    ) -> (r: Result<(), AppError>)
        requires
            old(self).wf(),
        ensures
            final(self).wf(),
            final(self).same_settings(old(self)),
            old(self).entries().contains_key(id@) ==> r is Ok && final(self).entries() == old(self).entries().insert(
                id@,
                Workspace { total_files, total_size_bytes, indexed, ..old(self).entries()[id@] },
            ),
            !old(self).entries().contains_key(id@) ==> (r matches Err(AppError::WorkspaceNotFound(w))
                && w@ == id@) && final(self).entries() == old(self).entries(),
            old(self).roots_distinct() ==> final(self).roots_distinct(),
    {
        match catalog_get(&self.workspaces, id) {
            Some(workspace) => {
                let mut workspace = workspace;
                workspace.total_files = total_files;
                workspace.total_size_bytes = total_size_bytes;
                workspace.indexed = indexed;
                catalog_insert(&mut self.workspaces, String::from_str(id), workspace);
                Ok(())
            },
            None => Err(AppError::WorkspaceNotFound(String::from_str(id))),
        }
    }

    /// Whether a name is left out of listings: it is the name of an
    /// excluded directory or meets one of the user's patterns.
    pub fn should_exclude(&self, name: &str) -> (r: bool)
        ensures
            r == (excluded_directory(name@) || matches_user_patterns(
                name@,
                string_views(self.user_exclude_patterns@),
            )),
    {
        is_excluded_directory(name) || matches_user_exclude_patterns(
            name,
            self.user_exclude_patterns.as_slice(),
        )
    }

    /// What a request is told whose path leaves its workspace.
    pub open spec fn refusal(file_path: Seq<char>) -> Seq<char> {
        "Path '"@ + file_path + "' is outside workspace"@
    }

    /// Decides whether a path of a request may be used, given how the
    /// caller resolved it on disk. A path that, taken below the root of the
    /// workspace and worked out on its text, leaves the root is refused
    /// whatever is on disk. Any other is allowed only if, resolved, it lies
    /// at or below the resolved root of the workspace; the resolved path is
    /// what is used from then on.
    pub fn validate_path(&self, workspace_id: &str, file_path: &str, resolved: &PathResolution) -> (r:
        Result<String, AppError>)
        ensures
            !self.entries().contains_key(workspace_id@) ==> (r matches Err(
                AppError::WorkspaceNotFound(w),
            ) && w@ == workspace_id@),
            self.entries().contains_key(workspace_id@) && !stays_below(
                self.entries()[workspace_id@].path@,
                file_path@,
            ) ==> (r matches Err(AppError::PathNotAllowed(m)) && m@ == Self::refusal(file_path@)),
            self.entries().contains_key(workspace_id@) && stays_below(
                self.entries()[workspace_id@].path@,
                file_path@,
            ) ==> match (resolved.target, resolved.root) {
                (None, _) => r matches Err(AppError::FileNotFound(p)) && p@ == file_path@,
                (Some(_), None) => r matches Err(AppError::WorkspaceNotFound(w)) && w@
                    == workspace_id@,
                (Some(target), Some(root)) => if is_within(root@, target@) {
                    r matches Ok(p) && p@ == target@
                } else {
                    r matches Err(AppError::PathNotAllowed(m)) && m@ == Self::refusal(file_path@)
                },
            },
            r matches Ok(p) ==> resolved.root is Some && is_within(resolved.root->0@, p@),
    {
        let workspace = match catalog_get(&self.workspaces, workspace_id) {
            Some(workspace) => workspace,
            None => {
                return Err(AppError::WorkspaceNotFound(String::from_str(workspace_id)));
            },
        };
        if !keeps_below(workspace.path.as_str(), file_path) {
            return Err(AppError::PathNotAllowed(Self::outside(file_path)));
        }
        let target = match &resolved.target {
            Some(target) => target,
            None => {
                return Err(AppError::FileNotFound(String::from_str(file_path)));
            },
        };
        let root = match &resolved.root {
            Some(root) => root,
            None => {
                return Err(AppError::WorkspaceNotFound(String::from_str(workspace_id)));
            },
        };
        let target_chars = chars_of(target.as_str());
        let root_chars = chars_of(root.as_str());
        if !lies_within(root_chars.as_slice(), target_chars.as_slice()) {
            return Err(AppError::PathNotAllowed(Self::outside(file_path)));
        }
        Ok(target.clone())
    }

    /// The words of a refusal.
    fn outside(file_path: &str) -> (message: String)
        ensures
            message@ == Self::refusal(file_path@),
    {
        let mut message = String::from_str("Path '");
        message.append(file_path);
        message.append("' is outside workspace");
        message
    }
}

/// `workspace` no longer active.
pub open spec fn deactivated(workspace: Workspace) -> Workspace {
    Workspace { is_active: false, ..workspace }
}

impl WorkspaceManager {
    /// Whether some workspace has this root.
    pub fn holds_root(&self, root: &str) -> (r: bool)
        requires
            self.wf(),
        ensures
            r == self.has_root(root@),
    {
        let all = self.persist();
        let mut i: usize = 0;
        while i < all.len()
            invariant
                i <= all.len(),
                forall|j: int| 0 <= j < i ==> (#[trigger] all[j]).path@ != root@,
                forall|j: int|
                    0 <= j < all.len() ==> self.entries().contains_key((#[trigger] all[j]).id@)
                        && all[j] == self.entries()[all[j].id@],
            decreases all.len() - i,
        {
            if str_eq(all[i].path.as_str(), root) {
                assert(self.entries().contains_key(all[i as int].id@));
                return true;
            }
            i += 1;
        }
        proof {
            if self.has_root(root@) {
                let k = choose|k: Seq<char>| #[trigger]
                    self.entries().contains_key(k) && self.entries()[k].path@ == root@;
                // every workspace of the catalog is in the list
                let ids = Seq::new(all.len() as nat, |j: int| all[j].id@);
                assert(ids.no_duplicates());
                ids.unique_seq_to_set();
                assert(ids.to_set().subset_of(self.entries().dom())) by {
                    assert forall|x: Seq<char>| ids.to_set().contains(x) implies self.entries().dom().contains(
                        x,
                    ) by {
                        let j = choose|j: int| 0 <= j < ids.len() && ids[j] == x;
                        assert(self.entries().contains_key(all[j].id@));
                    }
                }
                vstd::set_lib::lemma_subset_equality(ids.to_set(), self.entries().dom());
                assert(ids.to_set().contains(k));
                let j = choose|j: int| 0 <= j < ids.len() && ids[j] == k;
                assert(all[j].path@ != root@);
                assert(all[j] == self.entries()[all[j].id@]);
                assert(false);
            }
        }
        false
    }

    /// Records a new workspace under `id`, with the root `root`, created
    /// and last used at `now`, neither active nor indexed. An id that some
    /// workspace has already is refused and nothing changes.
    pub fn enter_workspace(&mut self, id: String, name: String, root: String, now: Timestamp) -> (r:
        Result<Workspace, AppError>)
        requires
            old(self).wf(),
        ensures
            final(self).wf(),
            final(self).same_settings(old(self)),
            old(self).entries().contains_key(id@) ==> (r matches Err(AppError::Internal(m)) && m@
                == ID_IN_USE@) && final(self).entries() == old(self).entries(),
            !old(self).entries().contains_key(id@) ==> (r matches Ok(created) && created == (Workspace {
                id,
                name,
                path: root,
                created_at: now,
                last_accessed: now,
                is_active: false,
                indexed: false,
                total_files: 0,
                total_size_bytes: 0,
            }) && final(self).entries() == old(self).entries().insert(id@, created)),
            old(self).roots_distinct() && !old(self).has_root(root@) ==> final(self).roots_distinct(),
    {
        if catalog_get(&self.workspaces, id.as_str()).is_some() {
            return Err(AppError::Internal(String::from_str(ID_IN_USE)));
        }
        let workspace = Workspace {
            id,
            name,
            path: root,
            created_at: now,
            last_accessed: now,
            is_active: false,
            indexed: false,
            total_files: 0,
            total_size_bytes: 0,
        };
        catalog_insert(&mut self.workspaces, workspace.id.clone(), workspace.clone());
        proof {
            if old(self).roots_distinct() && !old(self).has_root(root@) {
                assert forall|a: Seq<char>, b: Seq<char>|
                    self.entries().contains_key(a) && self.entries().contains_key(b) && a
                        != b implies self.entries()[a].path@ != self.entries()[b].path@ by {
                    if a == workspace.id@ {
                        assert(old(self).entries().contains_key(b));
                    } else if b == workspace.id@ {
                        assert(old(self).entries().contains_key(a));
                    }
                }
            }
        }
        Ok(workspace)
    }

    /// Registers a workspace at `now`. `path` is the root as the client
    /// wrote it, `canonical` its absolute form with links resolved, if it
    /// could be resolved, and `other_roots` are the roots of the registered
    /// workspaces as they resolve now.
    ///
    /// A root that cannot be resolved is not found. A root that is the root
    /// of a registered workspace, as recorded or as it resolves now, is
    /// rejected. Otherwise an id is drawn at random. The workspace is
    /// recorded under it, neither active nor indexed, unless the id is that
    /// of a registered workspace: then nothing is recorded.
    pub fn create_workspace(
        &mut self,
        name: String,
        path: String,
        canonical: Option<String>,
        other_roots: &Vec<String>,
        now: Timestamp,
    ) -> (r: Result<Workspace, AppError>)
        requires
            old(self).wf(),
        ensures
            final(self).wf(),
            final(self).same_settings(old(self)),
            match canonical {
                None => (r matches Err(AppError::FileNotFound(m)) && m@ == "Path does not exist: "@
                    + path@) && final(self).entries() == old(self).entries(),
                Some(root) => if string_views(other_roots@).contains(root@) || old(self).has_root(
                    root@,
                ) {
                    (r matches Err(AppError::WorkspaceAlreadyExists(p)) && p@ == path@)
                        && final(self).entries() == old(self).entries()
                } else {
                    match r {
                        Ok(created) => {
                            &&& created.name == name
                            &&& created.path@ == root@
                            &&& created.created_at == now
                            &&& created.last_accessed == now
                            &&& !created.is_active
                            &&& !created.indexed
                            &&& created.total_files == 0
                            &&& created.total_size_bytes == 0
                            &&& created.id@.len() == 36
                            &&& !old(self).entries().contains_key(created.id@)
                            &&& final(self).entries() == old(self).entries().insert(created.id@, created)
                        },
                        Err(e) => (e matches AppError::Internal(m) && m@ == ID_IN_USE@) && final(self).entries()
                            == old(self).entries(),
                    }
                },
            },
            old(self).roots_distinct() ==> final(self).roots_distinct(),
    {
        let root = match canonical {
            Some(root) => root,
            None => {
                return Err(AppError::FileNotFound(concat("Path does not exist: ", path.as_str())));
            },
        };
        let mut i: usize = 0;
        while i < other_roots.len()
            invariant
                i <= other_roots.len(),
                *self == *old(self),
                old(self).wf(),
                canonical == Some(root),
                forall|j: int| 0 <= j < i ==> string_views(other_roots@)[j] != root@,
            decreases other_roots.len() - i,
        {
            if str_eq(other_roots[i].as_str(), root.as_str()) {
                assert(string_views(other_roots@)[i as int] == root@);
                return Err(AppError::WorkspaceAlreadyExists(path));
            }
            i += 1;
        }
        if self.holds_root(root.as_str()) {
            return Err(AppError::WorkspaceAlreadyExists(path));
        }
        self.enter_workspace(random_id(), name, root, now)
    }

    /// Makes a workspace the active one at `now`: no other is active
    /// afterwards, and its last access is `now`. If there is no such
    /// workspace, none is active afterwards.
    pub fn activate_workspace(&mut self, id: &str, now: Timestamp) -> (r: Result<Workspace, AppError>)
        requires
            old(self).wf(),
        ensures
            final(self).wf(),
            final(self).same_settings(old(self)),
            final(self).entries().dom() == old(self).entries().dom(),
            forall|k: Seq<char>|
                k != id@ && #[trigger] old(self).entries().contains_key(k) ==> final(self).entries()[k]
                    == deactivated(old(self).entries()[k]),
            old(self).entries().contains_key(id@) ==> (r matches Ok(active) && active
                == final(self).entries()[id@] && active == (Workspace {
                is_active: true,
                last_accessed: now,
                ..old(self).entries()[id@]
            })),
            !old(self).entries().contains_key(id@) ==> (r matches Err(AppError::WorkspaceNotFound(w))
                && w@ == id@),
            old(self).roots_distinct() ==> final(self).roots_distinct(),
    {
        let keys = catalog_keys(&self.workspaces);
        let ghost before = self.entries();
        let mut i: usize = 0;
        while i < keys.len()
            invariant
                i <= keys.len(),
                before == old(self).entries(),
                old(self).wf(),
                self.same_settings(old(self)),
                string_views(keys@).no_duplicates(),
                string_views(keys@).to_set() == before.dom(),
                self.entries().dom() == before.dom(),
                forall|j: int|
                    0 <= j < i ==> self.entries()[#[trigger] string_views(keys@)[j]] == deactivated(
                        before[string_views(keys@)[j]],
                    ),
                forall|j: int|
                    i <= j < keys.len() ==> self.entries()[#[trigger] string_views(keys@)[j]]
                        == before[string_views(keys@)[j]],
            decreases keys.len() - i,
        {
            let ghost key = string_views(keys@)[i as int];
            let ghost held = self.entries();
            assert(key == keys@[i as int]@);
            assert(string_views(keys@).to_set().contains(key));
            match catalog_get(&self.workspaces, keys[i].as_str()) {
                Some(workspace) => {
                    let mut workspace = workspace;
                    workspace.is_active = false;
                    catalog_insert(&mut self.workspaces, keys[i].clone(), workspace);
                },
                None => {
                    assert(false);
                },
            }
            proof {
                assert(self.entries().dom() =~= before.dom());
                assert forall|j: int| 0 <= j < i + 1 implies self.entries()[#[trigger] string_views(
                    keys@,
                )[j]] == deactivated(before[string_views(keys@)[j]]) by {
                    if j < i {
                        assert(string_views(keys@)[j] != key);
                        assert(held[string_views(keys@)[j]] == deactivated(
                            before[string_views(keys@)[j]],
                        ));
                    }
                }
                assert forall|j: int| i + 1 <= j < keys.len() implies self.entries()[#[trigger] string_views(
                    keys@,
                )[j]] == before[string_views(keys@)[j]] by {
                    assert(string_views(keys@)[j] != key);
                    assert(held[string_views(keys@)[j]] == before[string_views(keys@)[j]]);
                }
            }
            i += 1;
        }
        proof {
            assert forall|k: Seq<char>| #[trigger] before.contains_key(k) implies self.entries()[k]
                == deactivated(before[k]) by {
                assert(string_views(keys@).to_set().contains(k));
                let j = choose|j: int| 0 <= j < keys.len() && string_views(keys@)[j] == k;
                assert(self.entries()[string_views(keys@)[j]] == deactivated(
                    before[string_views(keys@)[j]],
                ));
            }
        }
        let ghost all_off = self.entries();
        let r = match catalog_get(&self.workspaces, id) {
            Some(workspace) => {
                let mut workspace = workspace;
                workspace.is_active = true;
                workspace.last_accessed = now;
                catalog_insert(&mut self.workspaces, String::from_str(id), workspace.clone());
                assert(self.entries().dom() =~= before.dom());
                Ok(workspace)
            },
            None => Err(AppError::WorkspaceNotFound(String::from_str(id))),
        };
        proof {
            assert forall|k: Seq<char>| #[trigger] self.entries().contains_key(k) implies self.entries()[k].id@
                == k by {
                assert(before.contains_key(k));
                assert(all_off[k] == deactivated(before[k]));
            }
            assert forall|k: Seq<char>| k != id@ && #[trigger] before.contains_key(k) implies self.entries()[k]
                == deactivated(before[k]) by {
                assert(all_off[k] == deactivated(before[k]));
            }
            if old(self).roots_distinct() {
                assert forall|a: Seq<char>, b: Seq<char>|
                    self.entries().contains_key(a) && self.entries().contains_key(b) && a
                        != b implies self.entries()[a].path@ != self.entries()[b].path@ by {
                    assert(before.contains_key(a));
                    assert(before.contains_key(b));
                    assert(all_off[a] == deactivated(before[a]));
                    assert(all_off[b] == deactivated(before[b]));
                }
            }
        }
        r
    }
}

// ---------------------------------------------------------------------------
// Listings
// ---------------------------------------------------------------------------

/// A name is hidden: it starts with a dot.
pub open spec fn hidden(name: Seq<char>) -> bool {
    name.len() > 0 && name[0] == '.'
}

/// The extension of the file that a path names, as the file system sees
/// it: none if the name has no dot, only the dot it starts with, or is
/// `..`; else what follows the last dot.
pub open spec fn extension_part(path: Seq<char>) -> Option<Seq<char>> {
    let name = file_name_of(path);
    let dot = last_index_of(name, '.');
    if dot <= 0 || name == seq!['.', '.'] {
        None
    } else {
        Some(name.subrange(dot + 1, name.len() as int))
    }
}

/// `a` stands before `b` in a listing or may stand there: directories come
/// first, and among directories and among files the names are in the order
/// of the dictionary, taken in lowercase.
pub open spec fn listed_before(a: FileEntry, b: FileEntry) -> bool {
    (a.is_dir && !b.is_dir) || (a.is_dir == b.is_dir && lex_le(lowercase(a.name@), lowercase(b.name@)))
}

/// Each entry of `list` may stand before the next.
pub open spec fn in_listing_order(list: Seq<FileEntry>) -> bool {
    forall|i: int| 0 <= i < list.len() - 1 ==> listed_before(#[trigger] list[i], list[i + 1])
}

/// Whether a name is hidden.
pub fn is_hidden_name(name: &str) -> (r: bool)
    ensures
        r == hidden(name@),
{
    let chars = chars_of(name);
    chars.len() > 0 && chars[0] == '.'
}

/// The extension of the file that a path names.
pub fn extension_of_path(path: &str) -> (ext: Option<String>)
    ensures
        match extension_part(path@) {
            Some(e) => ext matches Some(found) && found@ == e,
            None => ext is None,
        },
{
    let chars = chars_of(path);
    let name = file_name(chars.as_slice());
    let mut dot: usize = name.len();
    assert(name@.subrange(0, name.len() as int) =~= name@);
    while dot > 0 && name[dot - 1] != '.'
        invariant
            dot <= name.len(),
            last_index_of(name@, '.') == last_index_of(name@.subrange(0, dot as int), '.'),
        decreases dot,
    {
        assert(name@.subrange(0, dot as int).drop_last() =~= name@.subrange(0, dot - 1));
        dot -= 1;
    }
    // `dot` is one past the position of the last dot, or 0 if there is none.
    let dots = name.len() == 2 && name[0] == '.' && name[1] == '.';
    assert(dots == (name@ == seq!['.', '.'])) by {
        if dots {
            assert(name@ =~= seq!['.', '.']);
        }
    }
    if dot <= 1 || dots {
        None
    } else {
        Some(string_from_chars(copy_range(name.as_slice(), dot, name.len()).as_slice()))
    }
}

/// The directory that a listing starts at: the root of the workspace for an
/// empty path or `.`, else the path below the root.
pub fn listing_target(root: &str, relative_path: &str) -> (target: String)
    ensures
        target@ == (if relative_path@.len() == 0 || relative_path@ == "."@ {
            root@
        } else {
            joined(root@, relative_path@)
        }),
{
    if relative_path.is_empty() || str_eq(relative_path, ".") {
        String::from_str(root)
    } else {
        join_path(root, relative_path)
    }
}

/// Whether a listing goes into directories at this depth: it does down to
/// `max_depth`.
pub fn within_depth(current_depth: usize, max_depth: usize) -> (r: bool)
    ensures
        r == (current_depth <= max_depth),
{
    current_depth <= max_depth
}

/// What the file system tells of an entry of a directory.
pub struct EntryFacts {
    pub is_dir: bool,
    pub is_symlink: bool,
    pub size: u64,
    pub modified: Option<Timestamp>,
    pub created: Option<Timestamp>,
    /// Number of entries of the directory, if it is one that can be read.
    pub children_count: Option<usize>,
}

impl WorkspaceManager {
    /// Whether an entry of this name is listed: it is not hidden, unless
    /// hidden entries are asked for, and its name is not left out.
    pub fn lists(&self, name: &str, show_hidden: bool) -> (r: bool)
        ensures
            r == ((show_hidden || !hidden(name@)) && !(excluded_directory(name@)
                || matches_user_patterns(name@, string_views(self.user_exclude_patterns@)))),
    {
        if !show_hidden && is_hidden_name(name) {
            return false;
        }
        !self.should_exclude(name)
    }

    /// The entry of a listing for what stands at `path`, below the root
    /// `base_path` of the workspace.
    pub fn collect_entries(base_path: &str, path: &str, name: &str, facts: &EntryFacts) -> (entry: FileEntry)
        ensures
            entry.name@ == name@,
            entry.path@ == path@,
            entry.relative_path@ == forward_slashes(relative_to(base_path@, path@)),
            entry.is_dir == facts.is_dir,
            entry.is_symlink == facts.is_symlink,
            entry.size == facts.size,
            entry.modified == facts.modified,
            entry.created == facts.created,
            match extension_part(path@) {
                Some(e) => entry.extension matches Some(found) && found@ == e,
                None => entry.extension is None,
            },
            entry.children_count == (if facts.is_dir {
                facts.children_count
            } else {
                None
            }),
            entry.is_hidden == hidden(name@),
    {
        let base_chars = chars_of(base_path);
        let path_chars = chars_of(path);
        let relative = with_forward_slashes(
            make_relative(base_chars.as_slice(), path_chars.as_slice()).as_slice(),
        );
        FileEntry {
            name: String::from_str(name),
            path: String::from_str(path),
            relative_path: string_from_chars(relative.as_slice()),
            is_dir: facts.is_dir,
            is_symlink: facts.is_symlink,
            size: facts.size,
            modified: facts.modified,
            created: facts.created,
            extension: extension_of_path(path),
            children_count: if facts.is_dir {
                facts.children_count
            } else {
                None
            },
            is_hidden: is_hidden_name(name),
        }
    }

    /// Puts the entries of a listing in order: directories first, then by name
    /// without regard to case.
    pub fn list_directory(entries: Vec<FileEntry>) -> (sorted: Vec<FileEntry>)
        ensures
            sorted@.to_multiset() == entries@.to_multiset(),
            in_listing_order(sorted@),
    {
        let mut entries = entries;
        let ghost given = entries@;
        let mut sorted: Vec<FileEntry> = Vec::new();
        let mut names: Vec<Vec<char>> = Vec::new();
        assert(given.skip(given.len() as int) =~= sorted@);
        assert(given.take(given.len() as int) =~= given);
        while entries.len() > 0
            invariant
                sorted.len() == names.len(),
                forall|k: int| 0 <= k < sorted.len() ==> (#[trigger] names[k])@ == lowercase(sorted[k].name@),
                in_listing_order(sorted@),
                entries.len() <= given.len(),
                entries@ == given.take(entries.len() as int),
                sorted@.to_multiset() == given.skip(entries.len() as int).to_multiset(),
            decreases entries.len(),
        {
            let entry = entries.pop().unwrap();
            let name = chars_of(to_lowercase(entry.name.as_str()).as_str());
            let mut at: usize = 0;
            // Entries come in from the last to the first, and each goes before the
            // entries that it may stand before: entries of one rank keep their order.
            while at < sorted.len() && !((entry.is_dir && !sorted[at].is_dir) || (entry.is_dir
                == sorted[at].is_dir && chars_le(name.as_slice(), names[at].as_slice())))
                invariant
                    at <= sorted.len(),
                    sorted.len() == names.len(),
                    name@ == lowercase(entry.name@),
                    forall|k: int|
                        0 <= k < sorted.len() ==> (#[trigger] names[k])@ == lowercase(sorted[k].name@),
                    forall|k: int| 0 <= k < at ==> !listed_before(entry, #[trigger] sorted[k]),
                decreases sorted.len() - at,
            {
                at += 1;
            }
            let ghost before = sorted@;
            let ghost names_before = names@;
            proof {
                if at > 0 {
                    lemma_lex_total(lowercase(entry.name@), lowercase(sorted[at - 1].name@), 0);
                    assert(!listed_before(entry, sorted[at - 1]));
                    assert(listed_before(sorted[at - 1], entry));
                }
                vstd::seq_lib::to_multiset_insert(before, at as int, entry);
                assert(entry == given[entries.len() as int]);
                assert(given.skip(entries.len() as int) =~= given.skip(entries.len() + 1).insert(0, entry));
                vstd::seq_lib::to_multiset_insert(given.skip(entries.len() + 1), 0, entry);
                assert(entries@ =~= given.take(entries.len() as int));
            }
            sorted.insert(at, entry);
            names.insert(at, name);
            proof {
                assert forall|k: int| 0 <= k < sorted.len() implies (#[trigger] names[k])@ == lowercase(
                    sorted[k].name@,
                ) by {
                    if k < at {
                        assert(names[k] == names_before[k]);
                        assert(sorted[k] == before[k]);
                    } else if k > at {
                        assert(names[k] == names_before[k - 1]);
                        assert(sorted[k] == before[k - 1]);
                    }
                }
                assert forall|k: int| 0 <= k < sorted.len() - 1 implies listed_before(
                    #[trigger] sorted[k],
                    sorted[k + 1],
                ) by {
                    if k + 1 < at {
                        assert(sorted[k] == before[k]);
                        assert(sorted[k + 1] == before[k + 1]);
                    } else if k + 1 == at {
                        assert(sorted[k] == before[k]);
                    } else if k == at {
                        assert(sorted[k + 1] == before[at as int]);
                    } else {
                        assert(sorted[k] == before[k - 1]);
                        assert(sorted[k + 1] == before[k]);
                        assert(listed_before(before[k - 1], before[k - 1 + 1]));
                    }
                }
            }
        }
        assert(given.skip(0) =~= given);
        sorted
    }

    /// What is known of the file at `relative_path`, from what the file system
    /// tells.
    pub fn get_file_stats(
        relative_path: &str,
        size: u64,
        is_dir: bool,
        is_file: bool,
        is_symlink: bool,
        modified: Option<Timestamp>,
        created: Option<Timestamp>,
        accessed: Option<Timestamp>,
    ) -> (stats: FileStats)
        ensures
            stats.path@ == relative_path@,
            stats.size == size,
            stats.is_dir == is_dir,
            stats.is_file == is_file,
            stats.is_symlink == is_symlink,
            stats.modified == modified,
            stats.created == created,
            stats.accessed == accessed,
            stats.permissions is None,
            match extension_part(relative_path@) {
                Some(e) => stats.extension matches Some(found) && found@ == e,
                None => stats.extension is None,
            },
    {
        FileStats {
            path: String::from_str(relative_path),
            size,
            is_dir,
            is_file,
            is_symlink,
            modified,
            created,
            accessed,
            permissions: None,
            extension: extension_of_path(relative_path),
        }
    }
}

} // verus!
