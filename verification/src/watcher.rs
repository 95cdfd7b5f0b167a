//! What the file watcher makes of the changes that the system reports.
//!
//! The caller owns the watch on the directory and the clock. It hands in the
//! changes of one debounced batch and the time, and gets back the changes
//! that are passed on.

use crate::collections::StringMap;
use crate::indexer::{in_excluded_directory, IndexManager};
use crate::paths::{forward_slashes, make_relative, relative_to, with_forward_slashes};
use crate::state::ServerEvent;
use crate::text::{chars_of, string_from_chars};
use vstd::prelude::*;
use vstd::string::StringExecFns;

verus! {

/// Milliseconds for which further changes of a file are passed over after
/// one was passed on.
pub const REINDEX_COOLDOWN_MS: u64 = 5000;

/// Milliseconds after which a file's last change is forgotten.
pub const STALE_AFTER_MS: u64 = 60000;

/// The records of the last changes are swept with the first of every so
/// many batches.
pub const CLEANUP_EVERY: usize = 50;

/// Milliseconds in which changes are gathered into one batch, if nothing
/// else is set.
pub const DEFAULT_DEBOUNCE_MS: u64 = 500;

/// What kind of change the system reported.
#[derive(Clone, Copy, PartialEq, Eq, Structural)]
pub enum EventKind {
    Create,
    Modify,
    Remove,
    Access,
    Other,
}

/// The name of a kind of change.
pub open spec fn kind_name(kind: EventKind) -> Seq<char> {
    match kind {
        EventKind::Create => "create"@,
        EventKind::Modify => "modify"@,
        EventKind::Remove => "remove"@,
        EventKind::Access => "access"@,
        EventKind::Other => "other"@,
    }
}

/// A kind of change that is passed on: a file came, changed or went.
pub open spec fn relevant(kind: EventKind) -> bool {
    kind != EventKind::Access && kind != EventKind::Other
}

/// The name of a kind of change.
pub fn classify_debounced_event(kind: EventKind) -> (name: &'static str)
    ensures
        name@ == kind_name(kind),
{
    match kind {
        EventKind::Create => "create",
        EventKind::Modify => "modify",
        EventKind::Remove => "remove",
        EventKind::Access => "access",
        EventKind::Other => "other",
    }
}

/// Milliseconds from `since` to `now`; none if the clock went back.
pub open spec fn since(last: u64, now: u64) -> int {
    if now >= last {
        now - last
    } else {
        0
    }
}

/// When each file was last passed on.
pub struct ReindexCooldownTracker {
    pub last_reindex: StringMap<u64>,
}

impl ReindexCooldownTracker {
    /// The record of times is well formed.
    pub open spec fn wf(&self) -> bool {
        self.last_reindex.wf()
    }

    /// A change of `path` at `now` is passed on: none was passed on in the
    /// five seconds before.
    pub open spec fn admits(times: Map<Seq<char>, u64>, path: Seq<char>, now: u64) -> bool {
        !(times.contains_key(path) && since(times[path], now) < REINDEX_COOLDOWN_MS)
    }

    /// The times after a change of `path` at `now` was looked at.
    pub open spec fn noted(times: Map<Seq<char>, u64>, path: Seq<char>, now: u64) -> Map<
        Seq<char>,
        u64,
    > {
        if Self::admits(times, path, now) {
            times.insert(path, now)
        } else {
            times
        }
    }

    /// The times that a sweep at `now` keeps: those less than a minute
    /// back.
    pub open spec fn fresh(times: Map<Seq<char>, u64>, now: u64) -> Map<Seq<char>, u64> {
        Map::new(
            |p: Seq<char>| times.contains_key(p) && times[p] + STALE_AFTER_MS > now,
            |p: Seq<char>| times[p],
        )
    }

    /// A tracker that knows of no change.
    pub fn new() -> (t: Self)
        ensures
            t.wf(),
            t.last_reindex@ == Map::<Seq<char>, u64>::empty(),
    {
        ReindexCooldownTracker { last_reindex: StringMap::new() }
    }

    /// Whether a change of `path` at `now` is passed on. If it is, `now`
    /// becomes the time of the last change of `path`.
    pub fn should_reindex(&mut self, path: &str, now: u64) -> (r: bool)
        requires
            old(self).wf(),
        ensures
            final(self).wf(),
            r == Self::admits(old(self).last_reindex@, path@, now),
            final(self).last_reindex@ == Self::noted(old(self).last_reindex@, path@, now),
    {
        match self.last_reindex.get(path) {
            Some(last) => {
                let passed: u64 = if now >= *last {
                    now - *last
                } else {
                    0
                };
                if passed < REINDEX_COOLDOWN_MS {
                    return false;
                }
            },
            None => {},
        }
        self.last_reindex.insert(String::from_str(path), now);
        true
    }

    /// Forgets the files whose last change is a minute or more back.
    pub fn cleanup_stale(&mut self, now: u64)
        requires
            old(self).wf(),
        ensures
            final(self).wf(),
            final(self).last_reindex@ == Self::fresh(old(self).last_reindex@, now),
    {
        let mut kept: StringMap<u64> = StringMap::new();
        let mut i: usize = 0;
        while i < self.last_reindex.keys.len()
            invariant
                i <= self.last_reindex.keys.len(),
                self.wf(),
                kept.wf(),
                forall|p: Seq<char>|
                    kept@.contains_key(p) <==> (exists|j: int|
                        0 <= j < i && self.last_reindex.key_views()[j] == p
                            && self.last_reindex.values[j] + STALE_AFTER_MS > now),
                forall|p: Seq<char>| kept@.contains_key(p) ==> kept@[p] == self.last_reindex@[p],
            decreases self.last_reindex.keys.len() - i,
        {
            let at = *self.last_reindex.value_at(i);
            let ghost before = kept@;
            proof {
                self.last_reindex.lemma_entry(i as int);
            }
            if at as u128 + STALE_AFTER_MS as u128 > now as u128 {
                kept.insert(self.last_reindex.key_at(i).clone(), at);
            }
            proof {
                assert forall|p: Seq<char>|
                    kept@.contains_key(p) <==> (exists|j: int|
                        0 <= j < i + 1 && self.last_reindex.key_views()[j] == p
                            && self.last_reindex.values[j] + STALE_AFTER_MS > now) by {
                    if kept@.contains_key(p) {
                        if before.contains_key(p) {
                            let j = choose|j: int|
                                0 <= j < i && self.last_reindex.key_views()[j] == p
                                    && self.last_reindex.values[j] + STALE_AFTER_MS > now;
                            assert(0 <= j < i + 1);
                        } else {
                            assert(self.last_reindex.key_views()[i as int] == p);
                        }
                    }
                    if (exists|j: int|
                        0 <= j < i + 1 && self.last_reindex.key_views()[j] == p
                            && self.last_reindex.values[j] + STALE_AFTER_MS > now) {
                        let j = choose|j: int|
                            0 <= j < i + 1 && self.last_reindex.key_views()[j] == p
                                && self.last_reindex.values[j] + STALE_AFTER_MS > now;
                        if j < i {
                            assert(before.contains_key(p));
                        }
                    }
                }
            }
            i += 1;
        }
        proof {
            let times = self.last_reindex@;
            assert forall|p: Seq<char>|
                kept@.contains_key(p) <==> Self::fresh(times, now).contains_key(p) by {
                if kept@.contains_key(p) {
                    let j = choose|j: int|
                        0 <= j < i && self.last_reindex.key_views()[j] == p
                            && self.last_reindex.values[j] + STALE_AFTER_MS > now;
                    self.last_reindex.lemma_entry(j);
                }
                if Self::fresh(times, now).contains_key(p) {
                    self.last_reindex.lemma_key_position(p);
                    let j = self.last_reindex.key_views().index_of(p);
                    assert(0 <= j < i && self.last_reindex.key_views()[j] == p
                        && self.last_reindex.values[j] + STALE_AFTER_MS > now);
                }
            }
            assert(kept@ =~= Self::fresh(times, now));
        }
        self.last_reindex = kept;
    }
}

// ---------------------------------------------------------------------------
// Batches of changes
// ---------------------------------------------------------------------------

/// A change that is passed on.
pub struct FileChange {
    /// The path as seen from the workspace, with `/` between its parts.
    pub relative_path: String,
    /// `create`, `modify` or `remove`.
    pub change_type: String,
}

impl FileChange {
    /// The event that tells the clients of the change.
    pub fn event(&self, workspace_id: &str) -> (e: ServerEvent)
        ensures
            e matches ServerEvent::FileChanged { workspace_id: w, path, change_type } && w@
                == workspace_id@ && path@ == self.relative_path@ && change_type@
                == self.change_type@,
    {
        ServerEvent::FileChanged {
            workspace_id: String::from_str(workspace_id),
            path: self.relative_path.clone(),
            change_type: self.change_type.clone(),
        }
    }
}

/// A reported change counts: its kind is passed on and no part of its path
/// names an excluded directory.
pub open spec fn counts(change: (EventKind, String)) -> bool {
    relevant(change.0) && !in_excluded_directory(change.1@)
}

/// The paths of the first `count` changes that count, each where it first
/// occurs.
pub open spec fn seen(changes: Seq<(EventKind, String)>, count: int) -> Seq<Seq<char>>
    decreases count,
{
    if count <= 0 {
        seq![]
    } else {
        let before = seen(changes, count - 1);
        let change = changes[count - 1];
        if counts(change) && !before.contains(change.1@) {
            before.push(change.1@)
        } else {
            before
        }
    }
}

/// For each path among the first `count` changes that count, the kind of
/// its last change.
pub open spec fn latest(changes: Seq<(EventKind, String)>, count: int) -> Map<Seq<char>, EventKind>
    decreases count,
{
    if count <= 0 {
        Map::empty()
    } else {
        let before = latest(changes, count - 1);
        let change = changes[count - 1];
        if counts(change) {
            before.insert(change.1@, change.0)
        } else {
            before
        }
    }
}

/// A path as it is passed on: seen from `root`, with `/` between its
/// parts.
pub open spec fn shown(root: Seq<char>, path: Seq<char>) -> Seq<char> {
    forward_slashes(relative_to(root, path))
}

/// The times of the last changes after the first `count` paths were looked
/// at, one after the other.
pub open spec fn cooled(
    times: Map<Seq<char>, u64>,
    root: Seq<char>,
    paths: Seq<Seq<char>>,
    now: u64,
    count: int,
) -> Map<Seq<char>, u64>
    decreases count,
{
    if count <= 0 {
        times
    } else {
        ReindexCooldownTracker::noted(
            cooled(times, root, paths, now, count - 1),
            shown(root, paths[count - 1]),
            now,
        )
    }
}

/// The positions among the first `count` paths of those whose change is
/// passed on.
pub open spec fn passed(
    times: Map<Seq<char>, u64>,
    root: Seq<char>,
    paths: Seq<Seq<char>>,
    now: u64,
    count: int,
) -> Seq<int>
    decreases count,
{
    if count <= 0 {
        seq![]
    } else {
        let before = passed(times, root, paths, now, count - 1);
        if ReindexCooldownTracker::admits(
            cooled(times, root, paths, now, count - 1),
            shown(root, paths[count - 1]),
            now,
        ) {
            before.push(count - 1)
        } else {
            before
        }
    }
}

/// What is kept for a workspace that is watched.
pub struct WatcherState {
    /// The root of the workspace.
    pub path: String,
    pub cooldown: ReindexCooldownTracker,
    /// Number of batches that came in.
    pub callbacks: usize,
}

/// What the map keeps for each watched workspace, by the id of the
/// workspace.
pub uninterp spec fn watched(map: dashmap::DashMap<String, WatcherState>) -> Map<
    Seq<char>,
    WatcherState,
>;

/// `DashMap::new`: a map that holds nothing.
#[verifier::external_body]
fn watched_new() -> (map: dashmap::DashMap<String, WatcherState>)
    ensures
        watched(map) =~= Map::empty(),
{
    dashmap::DashMap::new()
}

/// `DashMap::insert`: afterwards the key has this value, and every other
/// key what it had.
#[verifier::external_body]
fn watched_insert(map: &mut dashmap::DashMap<String, WatcherState>, key: String, value: WatcherState)
    ensures
        watched(*final(map)) == watched(*old(map)).insert(key@, value),
{
    map.insert(key, value);
}

/// `DashMap::remove`: afterwards the map does not hold the key, and every
/// other key has what it had; the result is the value that the key had.
#[verifier::external_body]
fn watched_remove(map: &mut dashmap::DashMap<String, WatcherState>, key: &str) -> (removed: Option<
    WatcherState,
>)
    ensures
        watched(*final(map)) == watched(*old(map)).remove(key@),
        removed is Some == watched(*old(map)).contains_key(key@),
        removed matches Some(value) ==> value == watched(*old(map))[key@],
{
    map.remove(key).map(|pair| pair.1)
}

/// `DashMap::contains_key`: whether the map holds the key.
#[verifier::external_body]
fn watched_has(map: &dashmap::DashMap<String, WatcherState>, key: &str) -> (held: bool)
    ensures
        held == watched(*map).contains_key(key@),
{
    map.contains_key(key)
}

/// The watches on all workspaces.
pub struct FileWatcherManager {
    pub watchers: dashmap::DashMap<String, WatcherState>,
    pub debounce_ms: u64,
}

/// A path as it is passed on.
pub fn shown_path(root: &str, path: &str) -> (r: String)
    ensures
        r@ == shown(root@, path@),
{
    let root_chars = chars_of(root);
    let path_chars = chars_of(path);
    let relative = make_relative(root_chars.as_slice(), path_chars.as_slice());
    let slashed = with_forward_slashes(relative.as_slice());
    string_from_chars(slashed.as_slice())
}

/// Gathers the changes that count: each path once, in the order in which
/// the paths first occur, with the kind of its last change.
pub fn gather(changes: &Vec<(EventKind, String)>) -> (pending: StringMap<EventKind>)
    ensures
        pending.wf(),
        pending.key_views() == seen(changes@, changes.len() as int),
        pending@ == latest(changes@, changes.len() as int),
{
    let mut pending: StringMap<EventKind> = StringMap::new();
    let mut i: usize = 0;
    assert(pending.key_views() =~= seq![]);
    while i < changes.len()
        invariant
            i <= changes.len(),
            pending.wf(),
            pending.key_views() == seen(changes@, i as int),
            pending@ == latest(changes@, i as int),
        decreases changes.len() - i,
    {
        let kind = changes[i].0;
        let relevant_kind = match kind {
            EventKind::Access => false,
            EventKind::Other => false,
            _ => true,
        };
        if relevant_kind && !IndexManager::is_build_or_output_dir(changes[i].1.as_str()) {
            proof {
                if pending.key_views().contains(changes[i as int].1@) {
                    let j = pending.key_views().index_of(changes[i as int].1@);
                    pending.lemma_entry(j);
                } else {
                    if pending@.contains_key(changes[i as int].1@) {
                        pending.lemma_key_position(changes[i as int].1@);
                    }
                }
            }
            pending.insert(changes[i].1.clone(), kind);
        }
        i += 1;
    }
    pending
}

impl FileWatcherManager {
    /// What is kept for each watched workspace.
    pub open spec fn watches(&self) -> Map<Seq<char>, WatcherState> {
        watched(self.watchers)
    }

    /// The records of every watched workspace are well formed.
    pub open spec fn wf(&self) -> bool {
        forall|w: Seq<char>| #[trigger]
            watched(self.watchers).contains_key(w) ==> watched(self.watchers)[w].cooldown.wf()
    }

    /// The workspace is watched.
    pub open spec fn watching(&self, workspace_id: Seq<char>) -> bool {
        self.watches().contains_key(workspace_id)
    }

    /// A manager that watches nothing.
    pub fn new(debounce_ms: u64) -> (m: Self)
        ensures
            m.wf(),
            m.debounce_ms == debounce_ms,
            m.watches() == Map::<Seq<char>, WatcherState>::empty(),
    {
        FileWatcherManager { watchers: watched_new(), debounce_ms }
    }

    /// Whether the workspace is watched.
    pub fn is_watching(&self, workspace_id: &str) -> (r: bool)
        requires
            self.wf(),
        ensures
            r == self.watching(workspace_id@),
    {
        watched_has(&self.watchers, workspace_id)
    }

    /// Notes that the workspace at `path` is watched from now on. Returns
    /// whether it was not watched before: a workspace that is watched
    /// already is left as it is.
    pub fn start_watching(&mut self, workspace_id: &str, path: &str) -> (started: bool)
        requires
            old(self).wf(),
        ensures
            final(self).wf(),
            final(self).debounce_ms == old(self).debounce_ms,
            started == !old(self).watching(workspace_id@),
            !started ==> final(self).watches() == old(self).watches(),
            started ==> {
                let state = final(self).watches()[workspace_id@];
                &&& final(self).watches() == old(self).watches().insert(workspace_id@, state)
                &&& state.path@ == path@
                &&& state.callbacks == 0
                &&& state.cooldown.last_reindex@ == Map::<Seq<char>, u64>::empty()
            },
    {
        if watched_has(&self.watchers, workspace_id) {
            return false;
        }
        watched_insert(&mut self.watchers, 
            String::from_str(workspace_id),
            WatcherState {
                path: String::from_str(path),
                cooldown: ReindexCooldownTracker::new(),
                callbacks: 0,
            },
        );
        true
    }

    /// Notes that the workspace is no longer watched. Returns whether it
    /// was.
    pub fn stop_watching(&mut self, workspace_id: &str) -> (stopped: bool)
        requires
            old(self).wf(),
        ensures
            final(self).wf(),
            final(self).debounce_ms == old(self).debounce_ms,
            stopped == old(self).watching(workspace_id@),
            final(self).watches() == old(self).watches().remove(workspace_id@),
    {
        watched_remove(&mut self.watchers, workspace_id).is_some()
    }

    /// The times of the last changes with which a batch starts: with the
    /// first of every fifty batches the stale ones are swept out.
    pub open spec fn swept(state: WatcherState, now: u64) -> Map<Seq<char>, u64> {
        if state.callbacks % CLEANUP_EVERY == 0 {
            ReindexCooldownTracker::fresh(state.cooldown.last_reindex@, now)
        } else {
            state.cooldown.last_reindex@
        }
    }

    /// Takes in one batch of changes of a watched workspace at time `now`
    /// and returns those that are passed on: for each path that has a change
    /// that counts and is not in its cooldown, one change, of the kind of
    /// the last change of the path. Each is to be told to the clients and
    /// the file to be indexed anew.
    pub fn on_events(&mut self, workspace_id: &str, changes: &Vec<(EventKind, String)>, now: u64) -> (out:
        Vec<FileChange>)
        requires
            old(self).wf(),
        ensures
            final(self).wf(),
            final(self).debounce_ms == old(self).debounce_ms,
            !old(self).watching(workspace_id@) ==> out.len() == 0 && *final(self) == *old(self),
            old(self).watching(workspace_id@) ==> {
                let before = old(self).watches()[workspace_id@];
                let after = final(self).watches()[workspace_id@];
                let paths = seen(changes@, changes.len() as int);
                let kinds = latest(changes@, changes.len() as int);
                let start = Self::swept(before, now);
                let picks = passed(start, before.path@, paths, now, paths.len() as int);
                &&& final(self).watches() == old(self).watches().insert(workspace_id@, after)
                &&& after.path == before.path
                &&& after.callbacks == (if before.callbacks < usize::MAX {
                    (before.callbacks + 1) as usize
                } else {
                    0usize
                })
                &&& after.cooldown.last_reindex@ == cooled(
                    start,
                    before.path@,
                    paths,
                    now,
                    paths.len() as int,
                )
                &&& out.len() == picks.len()
                &&& forall|k: int|
                    0 <= k < out.len() ==> (#[trigger] out[k]).relative_path@ == shown(
                        before.path@,
                        paths[picks[k]],
                    ) && out[k].change_type@ == kind_name(kinds[paths[picks[k]]])
            },
    {
        let mut out: Vec<FileChange> = Vec::new();
        if !watched_has(&self.watchers, workspace_id) {
            return out;
        }
        let mut state = match watched_remove(&mut self.watchers, workspace_id) {
            Some(state) => state,
            None => {
                return out;
            },
        };
        let ghost before = state;
        if state.callbacks % CLEANUP_EVERY == 0 {
            state.cooldown.cleanup_stale(now);
        }
        state.callbacks = if state.callbacks < usize::MAX {
            state.callbacks + 1
        } else {
            0
        };
        let ghost start = state.cooldown.last_reindex@;
        let pending = gather(changes);
        let ghost paths = pending.key_views();
        let mut i: usize = 0;
        while i < pending.keys.len()
            invariant
                i <= pending.keys.len(),
                pending.wf(),
                paths == pending.key_views(),
                state.cooldown.wf(),
                state.path == before.path,
                state.callbacks == (if before.callbacks < usize::MAX {
                    (before.callbacks + 1) as usize
                } else {
                    0usize
                }),
                state.cooldown.last_reindex@ == cooled(start, before.path@, paths, now, i as int),
                out.len() == passed(start, before.path@, paths, now, i as int).len(),
                forall|k: int|
                    0 <= k < out.len() ==> (#[trigger] out[k]).relative_path@ == shown(
                        before.path@,
                        paths[passed(start, before.path@, paths, now, i as int)[k]],
                    ) && out[k].change_type@ == kind_name(
                        pending@[paths[passed(start, before.path@, paths, now, i as int)[k]]],
                    ),
            decreases pending.keys.len() - i,
        {
            let ghost picks = passed(start, before.path@, paths, now, i as int);
            let ghost old_out = out@;
            let path = pending.key_at(i);
            let kind = *pending.value_at(i);
            let relative = shown_path(state.path.as_str(), path.as_str());
            if state.cooldown.should_reindex(relative.as_str(), now) {
                out.push(
                    FileChange {
                        relative_path: relative,
                        change_type: String::from_str(classify_debounced_event(kind)),
                    },
                );
            }
            proof {
                let next = passed(start, before.path@, paths, now, i + 1);
                assert forall|k: int| 0 <= k < out.len() implies (#[trigger] out[k]).relative_path@
                    == shown(before.path@, paths[next[k]]) && out[k].change_type@ == kind_name(
                    pending@[paths[next[k]]],
                ) by {
                    if k < old_out.len() {
                        assert(out[k] == old_out[k]);
                        assert(next[k] == picks[k]);
                    }
                }
            }
            i += 1;
        }
        watched_insert(&mut self.watchers, String::from_str(workspace_id), state);
        assert(self.watches() =~= old(self).watches().insert(workspace_id@, state));
        out
    }
}

} // verus!
