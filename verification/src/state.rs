//! Events that the service broadcasts, and who gets them.

use crate::collections::{copy_strings, StringMap};
use crate::config::AppConfig;
use crate::embedder::EmbeddingManager;
use crate::indexer::IndexManager;
use crate::paths::{join_path, joined};
use crate::watcher::FileWatcherManager;
use crate::workspace::{stored_workspaces, Workspace, WorkspaceManager};
use vstd::prelude::*;
use vstd::string::StringExecFns;

verus! {

/// An event for the connected clients. Each names the workspace it is about.
pub enum ServerEvent {
    WorkspaceCreated { workspace_id: String, path: String },
    WorkspaceRemoved { workspace_id: String },
    IndexingStarted { workspace_id: String },
    IndexingProgress { workspace_id: String, indexed: usize, total: usize },
    IndexingCompleted { workspace_id: String, total_files: usize, duration_ms: u64 },
    IndexingError { workspace_id: String, error: String },
    VectorIndexingProgress { workspace_id: String, embedded_chunks: usize, total_chunks: usize },
    VectorIndexingCompleted { workspace_id: String, total_chunks: usize, duration_ms: u64 },
    FileChanged { workspace_id: String, path: String, change_type: String },
    SearchReady { workspace_id: String },
}

impl ServerEvent {
    /// The workspace that the event is about.
    pub open spec fn subject(&self) -> Seq<char> {
        match self {
            ServerEvent::WorkspaceCreated { workspace_id, .. } => workspace_id@,
            ServerEvent::WorkspaceRemoved { workspace_id } => workspace_id@,
            ServerEvent::IndexingStarted { workspace_id } => workspace_id@,
            ServerEvent::IndexingProgress { workspace_id, .. } => workspace_id@,
            ServerEvent::IndexingCompleted { workspace_id, .. } => workspace_id@,
            ServerEvent::IndexingError { workspace_id, .. } => workspace_id@,
            ServerEvent::VectorIndexingProgress { workspace_id, .. } => workspace_id@,
            ServerEvent::VectorIndexingCompleted { workspace_id, .. } => workspace_id@,
            ServerEvent::FileChanged { workspace_id, .. } => workspace_id@,
            ServerEvent::SearchReady { workspace_id } => workspace_id@,
        }
    }

    /// The workspace that the event is about.
    pub fn workspace_id(&self) -> (id: &str)
        ensures
            id@ == self.subject(),
    {
        match self {
            ServerEvent::WorkspaceCreated { workspace_id, .. } => workspace_id.as_str(),
            ServerEvent::WorkspaceRemoved { workspace_id } => workspace_id.as_str(),
            ServerEvent::IndexingStarted { workspace_id } => workspace_id.as_str(),
            ServerEvent::IndexingProgress { workspace_id, .. } => workspace_id.as_str(),
            ServerEvent::IndexingCompleted { workspace_id, .. } => workspace_id.as_str(),
            ServerEvent::IndexingError { workspace_id, .. } => workspace_id.as_str(),
            ServerEvent::VectorIndexingProgress { workspace_id, .. } => workspace_id.as_str(),
            ServerEvent::VectorIndexingCompleted { workspace_id, .. } => workspace_id.as_str(),
            ServerEvent::FileChanged { workspace_id, .. } => workspace_id.as_str(),
            ServerEvent::SearchReady { workspace_id } => workspace_id.as_str(),
        }
    }
}

/// Events that the channel holds before a slow subscriber is reported as
/// lagging.
pub const EVENT_CHANNEL_CAPACITY: usize = 256;

/// The workspaces that one client asked to hear about.
pub struct Subscriptions {
    pub workspaces: StringMap<()>,
}

impl Subscriptions {
    /// The set of subscriptions is well formed.
    pub open spec fn wf(&self) -> bool {
        self.workspaces.wf()
    }

    /// The workspaces subscribed to.
    pub open spec fn ids(&self) -> Set<Seq<char>> {
        self.workspaces@.dom()
    }

    /// A client that subscribed to nothing hears everything; any other hears
    /// of its workspaces alone.
    pub open spec fn admits(&self, event: ServerEvent) -> bool {
        self.ids() =~= Set::<Seq<char>>::empty() || self.ids().contains(event.subject())
    }

    /// No subscription.
    pub fn new() -> (s: Self)
        ensures
            s.wf(),
            s.ids() == Set::<Seq<char>>::empty(),
    {
        let s = Subscriptions { workspaces: StringMap::new() };
        assert(s.ids() =~= Set::<Seq<char>>::empty());
        s
    }

    /// Adds a workspace to the subscriptions.
    pub fn subscribe(&mut self, workspace_id: &str)
        requires
            old(self).wf(),
        ensures
            final(self).wf(),
            final(self).ids() == old(self).ids().insert(workspace_id@),
    {
        self.workspaces.insert(String::from_str(workspace_id), ());
        assert(self.ids() =~= old(self).ids().insert(workspace_id@));
    }

    /// Takes a workspace out of the subscriptions.
    pub fn unsubscribe(&mut self, workspace_id: &str)
        requires
            old(self).wf(),
        ensures
            final(self).wf(),
            final(self).ids() == old(self).ids().remove(workspace_id@),
    {
        self.workspaces.remove(workspace_id);
        assert(self.ids() =~= old(self).ids().remove(workspace_id@));
    }

    /// Whether `event` goes to this client.
    pub fn should_forward(&self, event: &ServerEvent) -> (r: bool)
        requires
            self.wf(),
        ensures
            r == self.admits(*event),
    {
        if self.workspaces.len() == 0 {
            proof {
                self.workspaces.lemma_len();
                assert(self.ids().len() == 0);
                assert(self.ids() =~= Set::<Seq<char>>::empty());
            }
            return true;
        }
        proof {
            self.workspaces.lemma_len();
            assert(!(self.ids() =~= Set::<Seq<char>>::empty()));
        }
        self.workspaces.contains_key(event.workspace_id())
    }
}

/// The directory below the data directory that holds the lexical indexes.
pub const INDEXES_DIR: &'static str = "indexes";

/// Everything the service keeps.
pub struct AppState {
    pub config: AppConfig,
    pub workspace_manager: WorkspaceManager,
    pub index_manager: IndexManager,
    pub embedding_manager: EmbeddingManager,
    pub watcher_manager: FileWatcherManager,
}

impl AppState {
    /// Every manager is well formed.
    pub open spec fn wf(&self) -> bool {
        &&& self.workspace_manager.wf()
        &&& self.index_manager.wf()
        &&& self.embedding_manager.wf()
        &&& self.watcher_manager.wf()
    }

    /// The state with which the service starts: the workspaces that were
    /// stored, no index loaded, nothing watched, everything set up as the
    /// settings say.
    pub fn new(config: AppConfig, stored: Vec<Workspace>) -> (state: Self)
        ensures
            state.wf(),
            state.config == config,
            state.workspace_manager.entries() == stored_workspaces(stored@, stored.len() as int),
            state.workspace_manager.data_dir@ == config.data_dir@,
            state.workspace_manager.user_exclude_patterns@ == config.exclude_patterns@,
            state.index_manager.base_dir@ == joined(config.data_dir@, INDEXES_DIR@),
            state.index_manager.max_file_size == config.max_file_size_bytes,
            state.index_manager.batch_size == config.index_batch_size,
            state.index_manager.max_indexed_files == config.max_indexed_files,
            state.index_manager.exclude_patterns@ == config.exclude_patterns@,
            state.index_manager.counters() == Map::<
                Seq<char>,
                crate::indexer::IndexState,
            >::empty(),
            state.embedding_manager.base_dir@ == config.data_dir@,
            !state.embedding_manager.model_initialized,
            state.embedding_manager.states() == Map::<
                Seq<char>,
                crate::vectors::WorkspaceVectorState,
            >::empty(),
            state.watcher_manager.debounce_ms == config.watcher_debounce_ms,
            state.watcher_manager.watches() == Map::<
                Seq<char>,
                crate::watcher::WatcherState,
            >::empty(),
    {
        let workspace_manager = WorkspaceManager::new(
            config.data_dir.clone(),
            copy_strings(&config.exclude_patterns),
            stored,
        );
        let index_manager = IndexManager::new(
            join_path(config.data_dir.as_str(), INDEXES_DIR),
            config.max_file_size_bytes,
            config.index_batch_size,
            config.max_indexed_files,
            copy_strings(&config.exclude_patterns),
        );
        let embedding_manager = EmbeddingManager::new(config.data_dir.clone());
        let watcher_manager = FileWatcherManager::new(config.watcher_debounce_ms);
        AppState { config, workspace_manager, index_manager, embedding_manager, watcher_manager }
    }
}

} // verus!
