//! The vector index of a workspace: which chunks get a vector, under which
//! id, and when the state is stored.
//!
//! The vectors and the graph that finds their neighbours live with the
//! caller, and so does the model that makes them. This module keeps what is
//! recorded beside them and says what is to be embedded, added and removed.

use crate::chunker::{chunk_text, chunks_of};
use crate::collections::{string_views, StringMap};
use crate::error::AppError;
use crate::flags::{flags, flags_get, flags_insert, flags_keys, flags_new};
use crate::hashes::{classify, compute_content_hash, recorded, sha256_hex, Reconciliation};
use crate::indexer::CHANGE_REMOVE;
use crate::paths::{join_path, joined};
use crate::state::ServerEvent;
use crate::text::{decimal_text, format_decimal, str_eq};
use crate::vectors::{
    vector_states, vectors_dirty, vectors_has, vectors_insert, vectors_keys, vectors_new,
    vectors_remove, ChunkMeta, WorkspaceVectorState,
};
use vstd::prelude::*;
use vstd::string::StringExecFns;

verus! {

/// Number of dimensions of a vector.
pub const EMBEDDING_DIM: usize = 1024;

/// The model that makes the vectors.
pub const QWEN3_REPO_ID: &'static str = "Qwen/Qwen3-Embedding-0.6B";

/// Most tokens of a text that the model reads.
pub const QWEN3_MAX_LENGTH: usize = 8192;

/// Most bytes of a chunk.
pub const MAX_CHUNK_CHARS: usize = 1024;

/// Bytes that a chunk shares with the one before it.
pub const CHUNK_OVERLAP_CHARS: usize = 96;

/// Most chunks of one file.
pub const MAX_CHUNKS_PER_FILE: usize = 200;

/// Chunks that are embedded in one call of the model.
pub const EMBED_BATCH_SIZE: usize = 32;

/// Neighbours of a node of the graph.
pub const HNSW_CONNECTIVITY: usize = 16;

/// Candidates that are looked at when a vector is added.
pub const HNSW_EXPANSION_ADD: usize = 128;

/// Candidates that are looked at in a search.
pub const HNSW_EXPANSION_SEARCH: usize = 64;

/// Vectors for which a new index has room.
pub const INITIAL_CAPACITY: usize = 65536;

/// Room that is kept beyond the vectors that are expected.
pub const CAPACITY_HEADROOM: usize = 1024;

/// Milliseconds that pass between two stores of a state after single-file
/// updates.
pub const SAVE_THROTTLE_MS: u64 = 10000;

/// A progress event goes out with the first of every so many batches.
pub const PROGRESS_EVERY_BATCHES: usize = 3;

/// Most neighbours that a search asks for.
pub const MAX_NEIGHBOURS: usize = 1000;

/// The directory below the data directory that holds the vectors.
pub const VECTORS_DIR: &'static str = "vectors";

/// The file of the graph of a workspace.
pub const INDEX_FILE: &'static str = "index.usearch";

/// The file of the chunks of a workspace, by vector id.
pub const METADATA_FILE: &'static str = "metadata.json";

/// The file of the content hashes of the embedded files.
pub const HASHES_FILE: &'static str = "content_hashes.json";

/// How two vectors are compared.
#[derive(Clone, Copy, PartialEq, Eq, Structural)]
pub enum Metric {
    Cosine,
}

/// How the numbers of a vector are stored.
#[derive(Clone, Copy, PartialEq, Eq, Structural)]
pub enum Quantization {
    HalfPrecision,
}

/// The fixed parameters of the graph.
#[derive(Clone, Copy, PartialEq, Eq, Structural)]
pub struct HnswOptions {
    pub dimensions: usize,
    pub metric: Metric,
    pub quantization: Quantization,
    pub connectivity: usize,
    pub expansion_add: usize,
    pub expansion_search: usize,
    /// Whether an id may have more than one vector.
    pub multi: bool,
}

/// The parameters with which every index is made.
pub fn hnsw_options() -> (options: HnswOptions)
    ensures
        options == (HnswOptions {
            dimensions: EMBEDDING_DIM,
            metric: Metric::Cosine,
            quantization: Quantization::HalfPrecision,
            connectivity: HNSW_CONNECTIVITY,
            expansion_add: HNSW_EXPANSION_ADD,
            expansion_search: HNSW_EXPANSION_SEARCH,
            multi: false,
        }),
{
    HnswOptions {
        dimensions: EMBEDDING_DIM,
        metric: Metric::Cosine,
        quantization: Quantization::HalfPrecision,
        connectivity: HNSW_CONNECTIVITY,
        expansion_add: HNSW_EXPANSION_ADD,
        expansion_search: HNSW_EXPANSION_SEARCH,
        multi: false,
    }
}

/// What is said of a model whose vectors have `actual` numbers where the
/// index is built for another number.
pub open spec fn dimension_mismatch(actual: usize) -> Seq<char> {
    "Model dimension mismatch: expected "@ + decimal_text(EMBEDDING_DIM as nat) + " but got "@
        + decimal_text(actual as nat)
}

/// Checks that the model makes vectors of the dimension that the index is
/// built for; the model cannot be used otherwise.
pub fn check_model_dimension(actual: usize) -> (r: Result<(), AppError>)
    ensures
        actual == EMBEDDING_DIM ==> r is Ok,
        actual != EMBEDDING_DIM ==> (r matches Err(AppError::IndexError(m)) && m@
            == dimension_mismatch(actual)),
{
    if actual == EMBEDDING_DIM {
        return Ok(());
    }
    let mut message = String::from_str("Model dimension mismatch: expected ");
    message.append(format_decimal(EMBEDDING_DIM as u64).as_str());
    message.append(" but got ");
    message.append(format_decimal(actual as u64).as_str());
    Err(AppError::IndexError(message))
}

/// The capacity to reserve before `expected` vectors are added to an index
/// that holds `held` vectors and has room for `capacity`: none if there is
/// room for the vectors and the headroom; else that room, and at least the
/// initial capacity.
pub open spec fn capacity_for(held: nat, expected: nat, capacity: usize) -> Option<usize> {
    let needed = held + expected + CAPACITY_HEADROOM;
    if needed <= capacity {
        None
    } else if needed <= INITIAL_CAPACITY {
        Some(INITIAL_CAPACITY)
    } else if needed <= usize::MAX {
        Some(needed as usize)
    } else {
        Some(usize::MAX)
    }
}

/// The capacity to reserve before `expected` vectors are added.
pub fn reserve_for(held: usize, expected: usize, capacity: usize) -> (r: Option<usize>)
    ensures
        r == capacity_for(held as nat, expected as nat, capacity),
{
    reserve_for_many(held, expected as u128, capacity)
}

fn reserve_for_many(held: usize, expected: u128, capacity: usize) -> (r: Option<usize>)
    requires
        expected <= 0x1_0000_0000_0000_0000_0000_0000,
    ensures
        r == capacity_for(held as nat, expected as nat, capacity),
{
    let needed: u128 = held as u128 + expected + CAPACITY_HEADROOM as u128;
    if needed <= capacity as u128 {
        None
    } else if needed <= INITIAL_CAPACITY as u128 {
        Some(INITIAL_CAPACITY)
    } else if needed <= usize::MAX as u128 {
        Some(needed as usize)
    } else {
        Some(usize::MAX)
    }
}

/// The capacity to reserve before one vector is added in a single-file
/// update: twice the capacity once the index is full but for one place.
pub fn grow_for_insert(held: usize, capacity: usize) -> (r: Option<usize>)
    ensures
        r == (if held + 1 >= capacity {
            Some(
                if capacity * 2 <= usize::MAX {
                    (capacity * 2) as usize
                } else {
                    usize::MAX
                },
            )
        } else {
            None
        }),
{
    if held as u128 + 1 >= capacity as u128 {
        let doubled: u128 = capacity as u128 * 2;
        if doubled <= usize::MAX as u128 {
            Some(doubled as usize)
        } else {
            Some(usize::MAX)
        }
    } else {
        None
    }
}

/// Number of neighbours that a search for `limit` results asks for.
pub fn search_k(limit: usize) -> (k: usize)
    ensures
        k == (if limit < MAX_NEIGHBOURS {
            limit
        } else {
            MAX_NEIGHBOURS
        }),
{
    if limit < MAX_NEIGHBOURS {
        limit
    } else {
        MAX_NEIGHBOURS
    }
}

/// Number of batches in which `chunks` chunks are embedded.
pub fn batch_count(chunks: usize) -> (n: usize)
    ensures
        n == (chunks + EMBED_BATCH_SIZE - 1) / (EMBED_BATCH_SIZE as int),
{
    if chunks == 0 {
        0
    } else {
        (chunks - 1) / EMBED_BATCH_SIZE + 1
    }
}

/// The chunks of batch `batch`: from the first to before the second.
pub fn batch_range(batch: usize, chunks: usize) -> (r: (usize, usize))
    requires
        batch * EMBED_BATCH_SIZE < chunks,
    ensures
        r.0 == batch * EMBED_BATCH_SIZE,
        r.1 == (if r.0 + EMBED_BATCH_SIZE < chunks {
            r.0 + EMBED_BATCH_SIZE
        } else {
            chunks as int
        }),
        r.0 < r.1 <= chunks,
{
    let start = batch * EMBED_BATCH_SIZE;
    let end = if chunks - start > EMBED_BATCH_SIZE {
        start + EMBED_BATCH_SIZE
    } else {
        chunks
    };
    (start, end)
}

/// The progress event after batch `batch` of a rebuild that embeds `chunks`
/// chunks: one goes out with the first of every three batches and says how
/// many chunks were gone through.
pub fn batch_progress(workspace_id: &str, batch: usize, chunks: usize) -> (event: Option<ServerEvent>)
    requires
        batch * EMBED_BATCH_SIZE < chunks,
    ensures
        event is Some <==> batch % PROGRESS_EVERY_BATCHES == 0,
        event matches Some(e) ==> (e matches ServerEvent::VectorIndexingProgress {
            workspace_id: w,
            embedded_chunks,
            total_chunks,
        } && w@ == workspace_id@ && total_chunks == chunks && embedded_chunks == (if batch
            * EMBED_BATCH_SIZE + EMBED_BATCH_SIZE < chunks {
            batch * EMBED_BATCH_SIZE + EMBED_BATCH_SIZE
        } else {
            chunks as int
        })),
{
    if batch % PROGRESS_EVERY_BATCHES != 0 {
        return None;
    }
    let (_, end) = batch_range(batch, chunks);
    Some(
        ServerEvent::VectorIndexingProgress {
            workspace_id: String::from_str(workspace_id),
            embedded_chunks: end,
            total_chunks: chunks,
        },
    )
}

// ---------------------------------------------------------------------------
// The manager
// ---------------------------------------------------------------------------

/// What was found stored for a workspace whose vectors are not loaded.
pub enum StoredVectors {
    /// No index or no list of chunks is stored.
    Missing,
    /// An index is stored and cannot be read.
    IndexUnreadable,
    /// The index was read, the list of chunks cannot be.
    MetadataUnreadable,
    /// Index and list of chunks were read.
    Loaded(StoredPair),
}

/// An index and a list of chunks as they were read.
pub struct StoredPair {
    /// The chunks, each with its id.
    pub entries: Vec<(u64, ChunkMeta)>,
    /// Number of vectors that the index holds.
    pub index_size: usize,
    /// For each entry, whether the index holds a vector of its id.
    pub held: Vec<bool>,
}

impl StoredPair {
    /// The chunks that were read, by id.
    pub open spec fn chunks(&self) -> Map<u64, ChunkMeta> {
        crate::vectors::stored_chunks(self.entries@, self.entries.len() as int)
    }

    /// Index and chunks belong together: the index holds a vector of the id
    /// of every chunk, and as many vectors as there are ids with a chunk.
    pub open spec fn agrees(&self) -> bool {
        &&& self.held.len() == self.entries.len()
        &&& forall|i: int| 0 <= i < self.held.len() ==> self.held[i]
        &&& self.chunks().dom().len() == self.index_size
    }
}

impl StoredVectors {
    /// What is stored is taken in: index and chunks were read and belong
    /// together.
    pub open spec fn kept(&self) -> bool {
        self matches StoredVectors::Loaded(pair) && pair.agrees()
    }
}

/// Whether every flag is set.
pub fn all_set(flags: &Vec<bool>) -> (r: bool)
    ensures
        r == forall|i: int| 0 <= i < flags.len() ==> flags[i],
{
    let mut i: usize = 0;
    while i < flags.len()
        invariant
            i <= flags.len(),
            forall|j: int| 0 <= j < i ==> flags[j],
        decreases flags.len() - i,
    {
        if !flags[i] {
            return false;
        }
        i += 1;
    }
    true
}

/// The vector indexes of all workspaces.
pub struct EmbeddingManager {
    pub workspaces: dashmap::DashMap<String, WorkspaceVectorState>,
    pub base_dir: String,
    /// The model is loaded.
    pub model_initialized: bool,
    /// For each workspace, whether a full rebuild of its vectors is under
    /// way.
    pub indexing_workspaces: dashmap::DashMap<String, bool>,
}

/// One result of a semantic search, without its score.
pub struct SemanticSearchHit {
    /// Position of the hit among the neighbours that the index returned.
    pub rank: usize,
    pub path: String,
    pub relative_path: String,
    pub chunk_text: String,
    pub line_start: usize,
    pub line_end: usize,
    pub language: String,
}

impl SemanticSearchHit {
    /// The hit says what `meta` records, at position `rank`.
    pub open spec fn shows(&self, rank: int, meta: ChunkMeta) -> bool {
        &&& self.rank == rank
        &&& self.path@ == meta.abs_path@
        &&& self.relative_path@ == meta.relative_path@
        &&& self.chunk_text@ == meta.chunk_text@
        &&& self.line_start == meta.line_start
        &&& self.line_end == meta.line_end
        &&& self.language@ == meta.language@
    }
}

/// The positions among the first `count` neighbours whose id has a chunk.
pub open spec fn known_ranks(chunks: Map<u64, ChunkMeta>, neighbours: Seq<u64>, count: int) -> Seq<int>
    decreases count,
{
    if count <= 0 {
        seq![]
    } else {
        let before = known_ranks(chunks, neighbours, count - 1);
        if chunks.contains_key(neighbours[count - 1]) {
            before.push(count - 1)
        } else {
            before
        }
    }
}

/// Every position that `known_ranks` gives is one of a neighbour with a
/// chunk, and the positions go up.
pub proof fn lemma_known_ranks(chunks: Map<u64, ChunkMeta>, neighbours: Seq<u64>, count: int)
    requires
        0 <= count <= neighbours.len(),
    ensures
        forall|j: int|
            0 <= j < known_ranks(chunks, neighbours, count).len() ==> 0 <= (#[trigger] known_ranks(
                chunks,
                neighbours,
                count,
            )[j]) < count && chunks.contains_key(neighbours[known_ranks(chunks, neighbours, count)[j]]),
        forall|a: int, b: int|
            0 <= a < b < known_ranks(chunks, neighbours, count).len() ==> known_ranks(
                chunks,
                neighbours,
                count,
            )[a] < known_ranks(chunks, neighbours, count)[b],
    decreases count,
{
    if count > 0 {
        lemma_known_ranks(chunks, neighbours, count - 1);
        let before = known_ranks(chunks, neighbours, count - 1);
        let now = known_ranks(chunks, neighbours, count);
        assert forall|j: int| 0 <= j < now.len() implies 0 <= (#[trigger] now[j]) < count
            && chunks.contains_key(neighbours[now[j]]) by {
            if j < before.len() {
                assert(now[j] == before[j]);
            }
        }
        assert forall|a: int, b: int| 0 <= a < b < now.len() implies now[a] < now[b] by {
            assert(now[a] == before[a]);
            if b < before.len() {
                assert(now[b] == before[b]);
            }
        }
    }
}

impl EmbeddingManager {
    /// The state of every workspace is well formed.
    pub open spec fn wf(&self) -> bool {
        forall|w: Seq<char>| #[trigger]
            vector_states(self.workspaces).contains_key(w) ==> vector_states(self.workspaces)[w].wf()
    }

    /// The state of each workspace whose vectors are loaded.
    pub open spec fn states(&self) -> Map<Seq<char>, WorkspaceVectorState> {
        vector_states(self.workspaces)
    }

    /// For each workspace of which it was noted, whether a full rebuild of
    /// its vectors is under way.
    pub open spec fn rebuilds(&self) -> Map<Seq<char>, bool> {
        flags(self.indexing_workspaces)
    }

    /// The vectors of the workspace are loaded.
    pub open spec fn loaded(&self, workspace_id: Seq<char>) -> bool {
        self.states().contains_key(workspace_id)
    }

    /// A full rebuild of the vectors of the workspace is under way.
    pub open spec fn rebuilding(&self, workspace_id: Seq<char>) -> bool {
        self.rebuilds().contains_key(workspace_id)
            && self.rebuilds()[workspace_id]
    }

    /// A manager without any workspace, whose model is not loaded.
    pub fn new(base_dir: String) -> (m: Self)
        ensures
            m.wf(),
            m.base_dir == base_dir,
            !m.model_initialized,
            m.states() == Map::<Seq<char>, WorkspaceVectorState>::empty(),
            m.rebuilds() == Map::<Seq<char>, bool>::empty(),
    {
        EmbeddingManager {
            workspaces: vectors_new(),
            base_dir,
            model_initialized: false,
            indexing_workspaces: flags_new(),
        }
    }

    /// The directory that holds the vectors of a workspace.
    pub fn vector_dir(&self, workspace_id: &str) -> (dir: String)
        ensures
            dir@ == joined(joined(self.base_dir@, VECTORS_DIR@), workspace_id@),
    {
        let root = join_path(self.base_dir.as_str(), VECTORS_DIR);
        join_path(root.as_str(), workspace_id)
    }

    /// Whether the model is loaded.
    pub fn is_model_ready(&self) -> (r: bool)
        ensures
            r == self.model_initialized,
    {
        self.model_initialized
    }

    /// Takes note of a model that was loaded and makes vectors of
    /// `dimension` numbers. The model counts as loaded only if the dimension
    /// is that of the index.
    pub fn ensure_model(&mut self, dimension: usize) -> (r: Result<(), AppError>)
        ensures
            old(self).wf() ==> final(self).wf() && final(self).ids_go_on(old(self)),
            final(self).states() == old(self).states(),
            final(self).rebuilds() == old(self).rebuilds(),
            final(self).base_dir == old(self).base_dir,
            dimension == EMBEDDING_DIM ==> r is Ok && final(self).model_initialized,
            dimension != EMBEDDING_DIM ==> (r matches Err(AppError::IndexError(m)) && m@
                == dimension_mismatch(dimension)) && final(self).model_initialized == old(self).model_initialized,
    {
        match check_model_dimension(dimension) {
            Ok(()) => {
                self.model_initialized = true;
                Ok(())
            },
            Err(e) => Err(e),
        }
    }

    /// Whether the vectors of some workspace are being rebuilt in full.
    pub fn is_indexing(&self) -> (r: bool)
        requires
            self.wf(),
        ensures
            r == exists|w: Seq<char>| self.rebuilding(w),
    {
        let keys = flags_keys(&self.indexing_workspaces);
        let mut i: usize = 0;
        while i < keys.len()
            invariant
                i <= keys.len(),
                forall|j: int| 0 <= j < i ==> !self.rebuilding(#[trigger] string_views(keys@)[j]),
            decreases keys.len() - i,
        {
            assert(string_views(keys@)[i as int] == keys@[i as int]@);
            match flags_get(&self.indexing_workspaces, keys[i].as_str()) {
                Some(true) => {
                    assert(self.rebuilding(keys@[i as int]@));
                    return true;
                },
                _ => {},
            }
            i += 1;
        }
        proof {
            assert forall|w: Seq<char>| !self.rebuilding(w) by {
                if self.rebuilds().contains_key(w) {
                    assert(string_views(keys@).to_set().contains(w));
                    let j = choose|j: int| 0 <= j < keys.len() && string_views(keys@)[j] == w;
                    assert(!self.rebuilding(string_views(keys@)[j]));
                }
            }
        }
        false
    }

    /// Whether the vectors of the workspace are loaded.
    pub fn is_loaded(&self, workspace_id: &str) -> (r: bool)
        requires
            self.wf(),
        ensures
            r == self.loaded(workspace_id@),
    {
        vectors_has(&self.workspaces, workspace_id)
    }

    /// Number of chunks with a vector, and whether the vectors of the
    /// workspace are loaded. The state of the workspace is taken out of the
    /// map for the count and put back as it was.
    pub fn get_stats(&mut self, workspace_id: &str) -> (r: (usize, bool))
        requires
            old(self).wf(),
        ensures
            final(self).wf(),
            final(self).same(old(self)),
            final(self).ids_go_on(old(self)),
            r.1 == old(self).loaded(workspace_id@),
            r.1 ==> r.0 == old(self).states()[workspace_id@]@.dom().len(),
            !r.1 ==> r.0 == 0,
    {
        if !vectors_has(&self.workspaces, workspace_id) {
            return (0, false);
        }
        match vectors_remove(&mut self.workspaces, workspace_id) {
            Some(state) => {
                let count = state.chunk_count();
                vectors_insert(&mut self.workspaces, String::from_str(workspace_id), state);
                assert(self.states() =~= old(self).states());
                (count, true)
            },
            None => (0, false),
        }
    }

    /// The state that a workspace starts with, given what is stored for it.
    pub open spec fn opened(
        &self,
        workspace_id: Seq<char>,
        stored: StoredVectors,
        hashes: Option<StringMap<String>>,
        now: u64,
        state: WorkspaceVectorState,
    ) -> bool {
        let dir = joined(joined(self.base_dir@, VECTORS_DIR@), workspace_id);
        &&& state.index_path@ == joined(dir, INDEX_FILE@)
        &&& state.meta_path@ == joined(dir, METADATA_FILE@)
        &&& state.hash_path@ == joined(dir, HASHES_FILE@)
        &&& !state.dirty
        &&& state.last_save == now
        &&& recorded(state.content_hashes) == (match hashes {
            Some(h) if stored.kept() => recorded(h),
            _ => Map::empty(),
        })
        &&& match stored {
            StoredVectors::Loaded(pair) if pair.agrees() => state@ == pair.chunks() && state.next_key
                == crate::vectors::next_after(pair.entries@, pair.entries.len() as int, 1),
            _ => state@ == Map::<u64, ChunkMeta>::empty() && state.next_key == 0,
        }
    }

    /// Loads the vectors of a workspace, unless they are loaded. `stored` is
    /// what was found stored for it, `hashes` the stored content hashes, if
    /// they could be read. An index is kept only together with its list of
    /// chunks: where either is missing or cannot be read, the workspace
    /// starts without chunks, without content hashes and with a new, empty
    /// index, and an index that was read is dropped, so that the next
    /// rebuild embeds every file anew. Returns the capacity to reserve in
    /// the new index, if one is to be made.
    pub fn get_or_create_workspace(
        &mut self,
        workspace_id: &str,
        stored: StoredVectors,
        hashes: Option<StringMap<String>>,
        now: u64,
    ) -> (reserve: Option<usize>)
        requires
            old(self).wf(),
            hashes matches Some(h) ==> h.wf(),
        ensures
            final(self).ids_go_on(old(self)),
            final(self).wf(),
            final(self).base_dir == old(self).base_dir,
            final(self).model_initialized == old(self).model_initialized,
            final(self).rebuilds() == old(self).rebuilds(),
            old(self).loaded(workspace_id@) ==> final(self).states() == old(self).states()
                && reserve is None,
            !old(self).loaded(workspace_id@) ==> {
                &&& final(self).states() == old(self).states().insert(
                    workspace_id@,
                    final(self).states()[workspace_id@],
                )
                &&& old(self).opened(
                    workspace_id@,
                    stored,
                    hashes,
                    now,
                    final(self).states()[workspace_id@],
                )
                &&& reserve == (if stored.kept() {
                    None::<usize>
                } else {
                    Some(INITIAL_CAPACITY)
                })
            },
    {
        if vectors_has(&self.workspaces, workspace_id) {
            return None;
        }
        let dir = self.vector_dir(workspace_id);
        let index_path = join_path(dir.as_str(), INDEX_FILE);
        let meta_path = join_path(dir.as_str(), METADATA_FILE);
        let hash_path = join_path(dir.as_str(), HASHES_FILE);
        let none: StringMap<String> = StringMap::new();
        assert(recorded(none) =~= Map::<Seq<char>, Seq<char>>::empty());
        let fresh = WorkspaceVectorState::empty(
            0,
            none,
            now,
            index_path.clone(),
            meta_path.clone(),
            hash_path.clone(),
        );
        let (state, reserve) = match stored {
            StoredVectors::Loaded(pair) => {
                let whole = pair.held.len() == pair.entries.len() && all_set(&pair.held);
                let index_size = pair.index_size;
                let mut state = WorkspaceVectorState::empty(
                    1,
                    StringMap::new(),
                    now,
                    index_path,
                    meta_path,
                    hash_path,
                );
                state.restore(pair.entries);
                if whole && state.chunk_count() == index_size {
                    match hashes {
                        Some(h) => {
                            state.content_hashes = h;
                        },
                        None => {
                            assert(recorded(state.content_hashes) =~= Map::<
                                Seq<char>,
                                Seq<char>,
                            >::empty());
                        },
                    }
                    (state, None)
                } else {
                    (fresh, Some(INITIAL_CAPACITY))
                }
            },
            _ => (fresh, Some(INITIAL_CAPACITY)),
        };
        vectors_insert(&mut self.workspaces, String::from_str(workspace_id), state);
        reserve
    }

    /// Makes sure that the vectors of a workspace are loaded, given what is
    /// stored for it; a workspace whose vectors are loaded is left as it is.
    /// Returns the capacity to reserve in a new index.
    pub fn ensure_workspace_loaded(
        &mut self,
        workspace_id: &str,
        stored: StoredVectors,
        hashes: Option<StringMap<String>>,
        now: u64,
    ) -> (reserve: Option<usize>)
        requires
            old(self).wf(),
            hashes matches Some(h) ==> h.wf(),
        ensures
            final(self).ids_go_on(old(self)),
            final(self).wf(),
            final(self).loaded(workspace_id@),
            final(self).base_dir == old(self).base_dir,
            final(self).model_initialized == old(self).model_initialized,
            final(self).rebuilds() == old(self).rebuilds(),
            old(self).loaded(workspace_id@) ==> final(self).states() == old(self).states()
                && reserve is None,
            !old(self).loaded(workspace_id@) ==> {
                &&& final(self).states() == old(self).states().insert(
                    workspace_id@,
                    final(self).states()[workspace_id@],
                )
                &&& old(self).opened(
                    workspace_id@,
                    stored,
                    hashes,
                    now,
                    final(self).states()[workspace_id@],
                )
                &&& reserve == (if stored.kept() {
                    None::<usize>
                } else {
                    Some(INITIAL_CAPACITY)
                })
            },
    {
        self.get_or_create_workspace(workspace_id, stored, hashes, now)
    }

    /// Forgets the vectors of a workspace. Returns the directory that held
    /// them.
    pub fn remove_workspace(&mut self, workspace_id: &str) -> (dir: String)
        requires
            old(self).wf(),
        ensures
            final(self).ids_go_on(old(self)),
            final(self).wf(),
            final(self).states() == old(self).states().remove(workspace_id@),
            final(self).rebuilds() == old(self).rebuilds(),
            final(self).base_dir == old(self).base_dir,
            final(self).model_initialized == old(self).model_initialized,
            dir@ == joined(joined(old(self).base_dir@, VECTORS_DIR@), workspace_id@),
    {
        vectors_remove(&mut self.workspaces, workspace_id);
        self.vector_dir(workspace_id)
    }

    /// The results of a search, given the ids of the neighbours that the
    /// index returned, nearest first: one hit for each neighbour that has a
    /// chunk, in the order of the neighbours. A workspace whose vectors are
    /// not loaded has no results. The state of the workspace is taken out of
    /// the map for the search and put back as it was.
    pub fn semantic_search(&mut self, workspace_id: &str, neighbours: &Vec<u64>) -> (hits: Vec<
        SemanticSearchHit,
    >)
        requires
            old(self).wf(),
        ensures
            final(self).wf(),
            final(self).same(old(self)),
            final(self).ids_go_on(old(self)),
            !old(self).loaded(workspace_id@) ==> hits.len() == 0,
            old(self).loaded(workspace_id@) ==> found(
                old(self).states()[workspace_id@]@,
                neighbours@,
                hits@,
            ),
    {
        if !vectors_has(&self.workspaces, workspace_id) {
            return Vec::new();
        }
        match vectors_remove(&mut self.workspaces, workspace_id) {
            Some(state) => {
                let hits = hits_of(&state, neighbours);
                vectors_insert(&mut self.workspaces, String::from_str(workspace_id), state);
                assert(self.states() =~= old(self).states());
                hits
            },
            None => Vec::new(),
        }
    }
}

/// `hits` are the results of a search among `chunks`: one hit for each of
/// `neighbours` that has a chunk, in their order.
pub open spec fn found(chunks: Map<u64, ChunkMeta>, neighbours: Seq<u64>, hits: Seq<SemanticSearchHit>) -> bool {
    let ranks = known_ranks(chunks, neighbours, neighbours.len() as int);
    &&& hits.len() == ranks.len()
    &&& forall|i: int|
        0 <= i < hits.len() ==> (#[trigger] hits[i]).shows(ranks[i], chunks[neighbours[ranks[i]]])
}

/// The results of a search among the chunks of one workspace, given the
/// ids of the neighbours that the index returned, nearest first.
pub fn hits_of(state: &WorkspaceVectorState, neighbours: &Vec<u64>) -> (hits: Vec<SemanticSearchHit>)
    requires
        state.wf(),
    ensures
        found(state@, neighbours@, hits@),
{
    let mut hits: Vec<SemanticSearchHit> = Vec::new();
    let ghost chunks = state@;
    let mut i: usize = 0;
    while i < neighbours.len()
        invariant
            i <= neighbours.len(),
            state.wf(),
            chunks == state@,
            hits.len() == known_ranks(chunks, neighbours@, i as int).len(),
            forall|j: int|
                0 <= j < hits.len() ==> (#[trigger] hits[j]).shows(
                    known_ranks(chunks, neighbours@, i as int)[j],
                    chunks[neighbours[known_ranks(chunks, neighbours@, i as int)[j]]],
                ),
        decreases neighbours.len() - i,
    {
        let ghost before = known_ranks(chunks, neighbours@, i as int);
        let ghost old_hits = hits@;
        assert(known_ranks(chunks, neighbours@, i + 1) == (if chunks.contains_key(
            neighbours[i as int],
        ) {
            before.push(i as int)
        } else {
            before
        }));
        match state.get(neighbours[i]) {
            Some(meta) => {
                hits.push(
                    SemanticSearchHit {
                        rank: i,
                        path: meta.abs_path.clone(),
                        relative_path: meta.relative_path.clone(),
                        chunk_text: meta.chunk_text.clone(),
                        line_start: meta.line_start,
                        line_end: meta.line_end,
                        language: meta.language.clone(),
                    },
                );
            },
            None => {},
        }
        proof {
            let now = known_ranks(chunks, neighbours@, i + 1);
            assert forall|j: int| 0 <= j < hits.len() implies (#[trigger] hits[j]).shows(
                now[j],
                chunks[neighbours[now[j]]],
            ) by {
                if j < old_hits.len() {
                    assert(hits[j] == old_hits[j]);
                    assert(now[j] == before[j]);
                }
            }
        }
        i += 1;
    }
    proof {
        lemma_known_ranks(chunks, neighbours@, neighbours.len() as int);
    }
    hits
}

// ---------------------------------------------------------------------------
// Keys, saving
// ---------------------------------------------------------------------------

impl EmbeddingManager {
    /// Everything but the states of the workspaces is as in `other`.
    pub open spec fn same_frame(&self, other: &EmbeddingManager) -> bool {
        &&& self.base_dir == other.base_dir
        &&& self.model_initialized == other.model_initialized
        &&& self.rebuilds() == other.rebuilds()
    }

    /// `self` holds what `other` holds.
    pub open spec fn same(&self, other: &EmbeddingManager) -> bool {
        &&& self.same_frame(other)
        &&& self.states() == other.states()
    }

    /// The state of `workspace_id` is `state` and all else is as in `other`.
    pub open spec fn updates(
        &self,
        other: &EmbeddingManager,
        workspace_id: Seq<char>,
        state: WorkspaceVectorState,
    ) -> bool {
        &&& self.same_frame(other)
        &&& self.states() == other.states().insert(workspace_id, state)
    }

    /// Every workspace whose vectors are loaded in `earlier` and in `self`
    /// has in `self` a state that follows its state in `earlier`: its next
    /// id has not gone down.
    pub open spec fn ids_go_on(&self, earlier: &EmbeddingManager) -> bool {
        forall|w: Seq<char>|
            #[trigger] earlier.loaded(w) && self.loaded(w) ==> self.states()[w].follows(
                &earlier.states()[w],
            )
    }

    /// Hands out the next vector id of a workspace whose vectors are loaded.
    /// The id can get its chunk at once: no id from it on has one.
    pub fn allocate_key(&mut self, workspace_id: &str) -> (key: Option<u64>)
        requires
            old(self).wf(),
        ensures
            final(self).ids_go_on(old(self)),
            final(self).wf(),
            !old(self).loaded(workspace_id@) ==> key is None && final(self).same(old(self)),
            old(self).loaded(workspace_id@) ==> {
                let before = old(self).states()[workspace_id@];
                let after = final(self).states()[workspace_id@];
                &&& final(self).updates(old(self), workspace_id@, after)
                &&& after@ == before@
                &&& after.keys == before.keys
                &&& after.metadata == before.metadata
                &&& after.same_files(&before)
                &&& match key {
                    Some(k) => k == before.next_key && after.next_key == k + 1
                        && !before@.contains_key(k) && after.admits(k),
                    None => before.next_key == u64::MAX && after.next_key == u64::MAX,
                }
            },
    {
        let mut state = match vectors_remove(&mut self.workspaces, workspace_id) {
            Some(state) => state,
            None => {
                assert(self.states() =~= old(self).states());
                return None;
            },
        };
        let key = state.allocate();
        vectors_insert(&mut self.workspaces, String::from_str(workspace_id), state);
        assert(self.states() =~= old(self).states().insert(workspace_id@, state));
        key
    }
}

/// Milliseconds from `since` to `now`; none if the clock went back.
pub open spec fn elapsed(since: u64, now: u64) -> u64 {
    if now >= since {
        (now - since) as u64
    } else {
        0
    }
}

/// What the vector index does about one changed file.
pub enum FileVectorStep {
    /// Nothing: the vectors of the workspace are not loaded, or they are
    /// being rebuilt in full.
    Skip,
    /// Nothing: the content is what was embedded last.
    Unchanged,
    /// The vectors of `removed_keys` leave the index, and `chunks` are
    /// embedded and added.
    Work { removed_keys: Vec<u64>, chunks: Vec<ChunkMeta> },
}

/// The chunks of a file, as `chunks_of` cuts them, with what is recorded of
/// each: `metas` are the chunks of this file.
pub open spec fn chunks_of_file(
    metas: Seq<ChunkMeta>,
    abs_path: Seq<char>,
    relative_path: Seq<char>,
    content: Seq<char>,
    language: Seq<char>,
) -> bool {
    let cut = chunks_of(
        content,
        MAX_CHUNK_CHARS as nat,
        CHUNK_OVERLAP_CHARS as nat,
        MAX_CHUNKS_PER_FILE as nat,
    );
    &&& metas.len() == cut.len()
    &&& forall|i: int|
        0 <= i < metas.len() ==> {
            &&& (#[trigger] metas[i]).abs_path@ == abs_path
            &&& metas[i].relative_path@ == relative_path
            &&& metas[i].language@ == language
            &&& metas[i].chunk_text@ == cut[i].0
            &&& metas[i].line_start == cut[i].1
            &&& metas[i].line_end == cut[i].2
        }
}

/// Cuts a file into chunks and notes of each what is recorded beside its
/// vector.
pub fn chunk_file(abs_path: &str, relative_path: &str, content: &str, language: &str) -> (metas: Vec<
    ChunkMeta,
>)
    ensures
        chunks_of_file(metas@, abs_path@, relative_path@, content@, language@),
{
    let cut = chunk_text(content, MAX_CHUNK_CHARS, CHUNK_OVERLAP_CHARS, MAX_CHUNKS_PER_FILE);
    let ghost model = chunks_of(
        content@,
        MAX_CHUNK_CHARS as nat,
        CHUNK_OVERLAP_CHARS as nat,
        MAX_CHUNKS_PER_FILE as nat,
    );
    let mut metas: Vec<ChunkMeta> = Vec::new();
    let mut i: usize = 0;
    while i < cut.len()
        invariant
            i <= cut.len(),
            crate::chunker::chunk_views(cut@) == model,
            metas.len() == i,
            forall|j: int|
                0 <= j < i ==> {
                    &&& (#[trigger] metas[j]).abs_path@ == abs_path@
                    &&& metas[j].relative_path@ == relative_path@
                    &&& metas[j].language@ == language@
                    &&& metas[j].chunk_text@ == model[j].0
                    &&& metas[j].line_start == model[j].1
                    &&& metas[j].line_end == model[j].2
                },
        decreases cut.len() - i,
    {
        assert(crate::chunker::chunk_views(cut@)[i as int] == (
            cut@[i as int].0@,
            cut@[i as int].1 as int,
            cut@[i as int].2 as int,
        ));
        metas.push(
            ChunkMeta {
                relative_path: String::from_str(relative_path),
                abs_path: String::from_str(abs_path),
                chunk_text: cut[i].0.clone(),
                line_start: cut[i].1,
                line_end: cut[i].2,
                language: String::from_str(language),
            },
        );
        i += 1;
    }
    assert(crate::chunker::chunk_views(cut@).len() == cut.len());
    metas
}

impl EmbeddingManager {
    /// Records the chunk of an id whose vector was added to the index of the
    /// workspace. Returns whether the id was taken.
    pub fn commit_vector(&mut self, workspace_id: &str, key: u64, meta: ChunkMeta) -> (taken: bool)
        requires
            old(self).wf(),
        ensures
            final(self).ids_go_on(old(self)),
            final(self).wf(),
            !old(self).loaded(workspace_id@) ==> !taken && final(self).same(old(self)),
            old(self).loaded(workspace_id@) ==> {
                let before = old(self).states()[workspace_id@];
                let after = final(self).states()[workspace_id@];
                &&& final(self).updates(old(self), workspace_id@, after)
                &&& taken == before.admits(key)
                &&& taken ==> after@ == before@.insert(key, meta) && !before@.contains_key(key)
                &&& !taken ==> after@ == before@
                &&& after.next_key == before.next_key
                &&& after.same_files(&before)
            },
    {
        let mut state = match vectors_remove(&mut self.workspaces, workspace_id) {
            Some(state) => state,
            None => {
                assert(self.states() =~= old(self).states());
                return false;
            },
        };
        let taken = state.commit(key, meta);
        vectors_insert(&mut self.workspaces, String::from_str(workspace_id), state);
        assert(self.states() =~= old(self).states().insert(workspace_id@, state));
        taken
    }

    /// Notes that the vectors of a workspace changed. Returns whether the
    /// state is to be stored now: it is if the last store is at least ten
    /// seconds back.
    pub fn touch(&mut self, workspace_id: &str, now: u64) -> (save: bool)
        requires
            old(self).wf(),
        ensures
            final(self).ids_go_on(old(self)),
            final(self).wf(),
            !old(self).loaded(workspace_id@) ==> !save && final(self).same(old(self)),
            old(self).loaded(workspace_id@) ==> {
                let before = old(self).states()[workspace_id@];
                &&& final(self).updates(
                    old(self),
                    workspace_id@,
                    WorkspaceVectorState { dirty: true, ..before },
                )
                &&& save == (elapsed(before.last_save, now) >= SAVE_THROTTLE_MS)
            },
    {
        let mut state = match vectors_remove(&mut self.workspaces, workspace_id) {
            Some(state) => state,
            None => {
                assert(self.states() =~= old(self).states());
                return false;
            },
        };
        state.dirty = true;
        let passed: u64 = if now >= state.last_save {
            now - state.last_save
        } else {
            0
        };
        vectors_insert(&mut self.workspaces, String::from_str(workspace_id), state);
        assert(self.states() =~= old(self).states().insert(workspace_id@, state));
        passed >= SAVE_THROTTLE_MS
    }

    /// Notes that the state of a workspace was stored at `now`.
    pub fn mark_saved(&mut self, workspace_id: &str, now: u64)
        requires
            old(self).wf(),
        ensures
            final(self).ids_go_on(old(self)),
            final(self).wf(),
            !old(self).loaded(workspace_id@) ==> final(self).same(old(self)),
            old(self).loaded(workspace_id@) ==> final(self).updates(
                old(self),
                workspace_id@,
                WorkspaceVectorState {
                    dirty: false,
                    last_save: now,
                    ..old(self).states()[workspace_id@]
                },
            ),
    {
        let mut state = match vectors_remove(&mut self.workspaces, workspace_id) {
            Some(state) => state,
            None => {
                assert(self.states() =~= old(self).states());
                return ;
            },
        };
        state.dirty = false;
        state.last_save = now;
        vectors_insert(&mut self.workspaces, String::from_str(workspace_id), state);
        assert(self.states() =~= old(self).states().insert(workspace_id@, state));
    }

    /// The workspaces whose state changed since it was last stored: at
    /// shutdown each of them is stored.
    pub fn flush_all(&self) -> (dirty: Vec<String>)
        requires
            self.wf(),
        ensures
            forall|w: Seq<char>|
                string_views(dirty@).contains(w) <==> self.loaded(w) && self.states()[w].dirty,
            string_views(dirty@).no_duplicates(),
    {
        let keys = vectors_keys(&self.workspaces);
        let ghost names = string_views(keys@);
        let mut dirty: Vec<String> = Vec::new();
        let ghost mut origin: Seq<int> = seq![];
        let mut i: usize = 0;
        while i < keys.len()
            invariant
                i <= keys.len(),
                names == string_views(keys@),
                names.no_duplicates(),
                names.to_set() == self.states().dom(),
                dirty.len() == origin.len(),
                forall|a: int|
                    0 <= a < origin.len() ==> 0 <= #[trigger] origin[a] < i && dirty[a]@
                        == names[origin[a]] && self.states()[names[origin[a]]].dirty,
                forall|a: int, b: int| 0 <= a < b < origin.len() ==> origin[a] < origin[b],
                forall|j: int|
                    0 <= j < i && self.states()[#[trigger] names[j]].dirty
                        ==> origin.contains(j),
            decreases keys.len() - i,
        {
            assert(names[i as int] == keys@[i as int]@);
            let is_dirty = match vectors_dirty(&self.workspaces, keys[i].as_str()) {
                Some(flag) => flag,
                None => false,
            };
            proof {
                assert(names.to_set().contains(names[i as int]));
            }
            if is_dirty {
                dirty.push(keys[i].clone());
                proof {
                    let before = origin;
                    origin = origin.push(i as int);
                    assert forall|j: int|
                        0 <= j < i + 1 && self.states()[#[trigger] names[j]].dirty implies origin.contains(
                        j,
                    ) by {
                        if j < i {
                            assert(before.contains(j));
                            let a = choose|a: int| 0 <= a < before.len() && before[a] == j;
                            assert(origin[a] == j);
                        } else {
                            assert(origin[before.len() as int] == j);
                        }
                    }
                }
            }
            i += 1;
        }
        proof {
            let listed = string_views(dirty@);
            assert forall|w: Seq<char>|
                listed.contains(w) <==> self.loaded(w) && self.states()[w].dirty by {
                if listed.contains(w) {
                    let a = choose|a: int| 0 <= a < listed.len() && listed[a] == w;
                    assert(listed[a] == dirty@[a]@);
                    assert(names.to_set().contains(names[origin[a]]));
                }
                if self.loaded(w) && self.states()[w].dirty {
                    assert(names.to_set().contains(w));
                    let j = choose|j: int| 0 <= j < names.len() && names[j] == w;
                    assert(origin.contains(j));
                    let a = choose|a: int| 0 <= a < origin.len() && origin[a] == j;
                    assert(listed[a] == dirty@[a]@);
                }
            }
            assert forall|a: int, b: int| 0 <= a < listed.len() && 0 <= b < listed.len() && a
                != b implies listed[a] != listed[b] by {
                assert(listed[a] == dirty@[a]@);
                assert(listed[b] == dirty@[b]@);
                if a < b {
                    assert(origin[a] < origin[b]);
                } else {
                    assert(origin[b] < origin[a]);
                }
            }
        }
        dirty
    }

    /// Takes the right to rebuild the vectors of the workspace in full, if
    /// nobody holds it. Returns whether it was taken.
    pub fn begin_vector_rebuild(&mut self, workspace_id: &str) -> (taken: bool)
        requires
            old(self).wf(),
        ensures
            final(self).ids_go_on(old(self)),
            final(self).wf(),
            taken == !old(self).rebuilding(workspace_id@),
            final(self).rebuilds() == old(self).rebuilds().insert(
                workspace_id@,
                true,
            ),
            final(self).states() == old(self).states(),
            final(self).base_dir == old(self).base_dir,
            final(self).model_initialized == old(self).model_initialized,
    {
        let held = match flags_get(&self.indexing_workspaces, workspace_id) {
            Some(flag) => flag,
            None => false,
        };
        flags_insert(&mut self.indexing_workspaces, String::from_str(workspace_id), true);
        !held
    }

    /// Gives back the right to rebuild the vectors of the workspace.
    pub fn end_vector_rebuild(&mut self, workspace_id: &str)
        requires
            old(self).wf(),
        ensures
            final(self).ids_go_on(old(self)),
            final(self).wf(),
            final(self).rebuilds() == old(self).rebuilds().insert(
                workspace_id@,
                false,
            ),
            final(self).states() == old(self).states(),
            final(self).base_dir == old(self).base_dir,
            final(self).model_initialized == old(self).model_initialized,
    {
        flags_insert(&mut self.indexing_workspaces, String::from_str(workspace_id), false);
    }

    /// Says what the vector index does about one changed file.
    ///
    /// Nothing is done while the vectors of the workspace are rebuilt in
    /// full or are not loaded, nor if the content is not empty, is not taken
    /// away, and has the hash that was embedded last. Otherwise the hash of
    /// the new content is recorded, or the hash is dropped if the file is
    /// taken away; the chunks of the file leave; and unless the file is
    /// taken away or empty, it is cut into chunks that are to be embedded.
    pub fn reindex_file_vectors(
        &mut self,
        workspace_id: &str,
        abs_path: &str,
        relative_path: &str,
        content: &str,
        language: &str,
        change_type: &str,
    ) -> (step: FileVectorStep)
        requires
            old(self).wf(),
        ensures
            final(self).ids_go_on(old(self)),
            final(self).wf(),
            old(self).rebuilding(workspace_id@) || !old(self).loaded(workspace_id@) ==> step is Skip
                && final(self).same(old(self)),
            !old(self).rebuilding(workspace_id@) && old(self).loaded(workspace_id@) ==> {
                let before = old(self).states()[workspace_id@];
                let after = final(self).states()[workspace_id@];
                let embeds = change_type@ != CHANGE_REMOVE@ && content@.len() > 0;
                let known = recorded(before.content_hashes);
                if embeds && known.contains_key(abs_path@) && known[abs_path@] == sha256_hex(
                    content@,
                ) {
                    step is Unchanged && final(self).same(old(self))
                } else {
                    &&& final(self).updates(old(self), workspace_id@, after)
                    &&& recorded(after.content_hashes) == (if embeds {
                        known.insert(abs_path@, sha256_hex(content@))
                    } else if change_type@ == CHANGE_REMOVE@ {
                        known.remove(abs_path@)
                    } else {
                        known
                    })
                    &&& after.next_key == before.next_key
                    &&& after.dirty == before.dirty
                    &&& after.last_save == before.last_save
                    &&& step matches FileVectorStep::Work { removed_keys, chunks }
                    &&& after@ == before@.remove_keys(removed_keys@.to_set())
                    &&& forall|k: u64|
                        removed_keys@.contains(k) <==> before@.contains_key(k)
                            && before@[k].abs_path@ == abs_path@
                    &&& if embeds {
                        chunks_of_file(chunks@, abs_path@, relative_path@, content@, language@)
                    } else {
                        chunks.len() == 0
                    }
                }
            },
    {
        let rebuilding = match flags_get(&self.indexing_workspaces, workspace_id) {
            Some(flag) => flag,
            None => false,
        };
        if rebuilding {
            return FileVectorStep::Skip;
        }
        let embeds = !str_eq(change_type, CHANGE_REMOVE) && !content.is_empty();
        let hash = compute_content_hash(content);
        if !vectors_has(&self.workspaces, workspace_id) {
            return FileVectorStep::Skip;
        }
        let mut state = vectors_remove(&mut self.workspaces, workspace_id).unwrap();
        let same = match state.content_hashes.get(abs_path) {
            Some(known) => embeds && str_eq(known.as_str(), hash.as_str()),
            None => false,
        };
        if same {
            vectors_insert(&mut self.workspaces, String::from_str(workspace_id), state);
            assert(self.states() =~= old(self).states());
            return FileVectorStep::Unchanged;
        }
        let ghost known = recorded(state.content_hashes);
        if embeds {
            state.content_hashes.insert(String::from_str(abs_path), hash);
            assert(recorded(state.content_hashes) =~= known.insert(abs_path@, sha256_hex(content@)));
        } else if str_eq(change_type, CHANGE_REMOVE) {
            state.content_hashes.remove(abs_path);
            assert(recorded(state.content_hashes) =~= known.remove(abs_path@));
        }
        let removed_keys = state.remove_path(abs_path);
        let chunks = if embeds {
            chunk_file(abs_path, relative_path, content, language)
        } else {
            Vec::new()
        };
        vectors_insert(&mut self.workspaces, String::from_str(workspace_id), state);
        assert(self.states() =~= old(self).states().insert(workspace_id@, state));
        FileVectorStep::Work { removed_keys, chunks }
    }
}

// ---------------------------------------------------------------------------
// Full rebuild
// ---------------------------------------------------------------------------

/// A file that is offered for embedding.
pub struct EmbedFile {
    pub abs_path: String,
    pub relative_path: String,
    pub content: String,
    pub language: String,
}

/// The content hash of each path among the first `count` files. Of several
/// files with one path the first counts.
pub open spec fn scan_of(files: Seq<EmbedFile>, count: int) -> Map<Seq<char>, Seq<char>>
    decreases count,
{
    if count <= 0 {
        Map::empty()
    } else {
        let before = scan_of(files, count - 1);
        let file = files[count - 1];
        if before.contains_key(file.abs_path@) {
            before
        } else {
            before.insert(file.abs_path@, sha256_hex(file.content@))
        }
    }
}

/// `at` is the position of the first of `files` with this path.
pub open spec fn first_with_path(files: Seq<EmbedFile>, path: Seq<char>, at: int) -> bool {
    &&& 0 <= at < files.len()
    &&& files[at].abs_path@ == path
    &&& forall|j: int| 0 <= j < at ==> (#[trigger] files[j]).abs_path@ != path
}

/// Number of chunks that a file of `bytes` bytes is expected to give.
pub open spec fn expected_chunks(bytes: nat) -> nat {
    let by_size = bytes / ((MAX_CHUNK_CHARS - CHUNK_OVERLAP_CHARS) as nat);
    if by_size < MAX_CHUNKS_PER_FILE {
        by_size + 1
    } else {
        (MAX_CHUNKS_PER_FILE + 1) as nat
    }
}

/// Number of chunks that the first `count` picked files are expected to
/// give.
pub open spec fn expected_total(files: Seq<EmbedFile>, picks: Seq<usize>, count: int) -> nat
    decreases count,
{
    if count <= 0 {
        0
    } else {
        expected_total(files, picks, count - 1) + expected_chunks(
            crate::text::utf8_len(files[picks[count - 1] as int].content@),
        )
    }
}

/// The chunks from `cut` on are the chunks of the picked file number
/// `count`.
pub open spec fn tail_is_file(
    chunks: Seq<ChunkMeta>,
    files: Seq<EmbedFile>,
    picks: Seq<usize>,
    count: int,
    cut: int,
) -> bool {
    let file = files[picks[count - 1] as int];
    &&& 0 <= cut <= chunks.len()
    &&& chunks_of_file(
        chunks.subrange(cut, chunks.len() as int),
        file.abs_path@,
        file.relative_path@,
        file.content@,
        file.language@,
    )
}

/// `chunks` are the chunks of the first `count` picked files, file after
/// file.
pub open spec fn planned(
    chunks: Seq<ChunkMeta>,
    files: Seq<EmbedFile>,
    picks: Seq<usize>,
    count: int,
) -> bool
    decreases count,
{
    if count <= 0 {
        chunks.len() == 0
    } else {
        exists|cut: int| #[trigger]
            tail_is_file(chunks, files, picks, count, cut) && planned(
                chunks.subrange(0, cut),
                files,
                picks,
                count - 1,
            )
    }
}

/// What a full rebuild of the vectors has to do.
pub struct VectorPlan {
    /// How the files stand against the recorded content hashes.
    pub changes: Reconciliation,
    /// The ids whose vectors leave the index.
    pub removed_keys: Vec<u64>,
    /// For each file that is embedded, its position among the files.
    pub picks: Vec<usize>,
    /// The chunks that are embedded and added, file after file.
    pub chunks: Vec<ChunkMeta>,
    /// The capacity to reserve in the index before vectors are added.
    pub reserve: Option<usize>,
    /// The content hashes of the files: what is recorded once the rebuild is
    /// over.
    pub hashes: StringMap<String>,
}

/// What a call for a full rebuild of the vectors comes to.
pub enum VectorStep {
    /// No rebuild was begun by `begin_vector_rebuild`, or the vectors of the
    /// workspace are not loaded.
    NotBegun,
    /// The files are what was embedded last; nothing is written, no event
    /// goes out. The number is that of the chunks with a vector.
    UpToDate(usize),
    /// There is work, and this is it.
    Work(VectorPlan),
}

fn expected_for(content: &str) -> (n: u128)
    ensures
        n == expected_chunks(crate::text::utf8_len(content@)),
        n <= MAX_CHUNKS_PER_FILE + 1,
{
    let chars = crate::text::chars_of(content);
    let bytes = crate::text::byte_len(chars.as_slice());
    let by_size: u128 = bytes / ((MAX_CHUNK_CHARS - CHUNK_OVERLAP_CHARS) as u128);
    if by_size < MAX_CHUNKS_PER_FILE as u128 {
        by_size + 1
    } else {
        (MAX_CHUNKS_PER_FILE + 1) as u128
    }
}

/// The content hashes of `files`, and for each path the position of the
/// first file that has it.
fn scan_files(files: &Vec<EmbedFile>) -> (r: (StringMap<String>, Vec<usize>))
    ensures
        r.0.wf(),
        recorded(r.0) == scan_of(files@, files.len() as int),
        r.1.len() == r.0.keys.len(),
        forall|k: int|
            0 <= k < r.1.len() ==> first_with_path(files@, r.0.key_views()[k], (#[trigger] r.1[k]) as int),
{
    let mut hashes: StringMap<String> = StringMap::new();
    let mut origin: Vec<usize> = Vec::new();
    let mut i: usize = 0;
    assert(recorded(hashes) =~= scan_of(files@, 0));
    while i < files.len()
        invariant
            i <= files.len(),
            hashes.wf(),
            recorded(hashes) == scan_of(files@, i as int),
            origin.len() == hashes.keys.len(),
            forall|k: int|
                0 <= k < origin.len() ==> (#[trigger] origin[k]) < i && first_with_path(
                    files@,
                    hashes.key_views()[k],
                    origin[k] as int,
                ),
            forall|j: int| 0 <= j < i ==> hashes@.contains_key((#[trigger] files[j]).abs_path@),
        decreases files.len() - i,
    {
        let file = &files[i];
        let ghost before = hashes;
        let ghost before_origin = origin@;
        if !hashes.contains_key(file.abs_path.as_str()) {
            let hash = compute_content_hash(file.content.as_str());
            hashes.insert(file.abs_path.clone(), hash);
            origin.push(i);
            assert(recorded(hashes) =~= recorded(before).insert(
                file.abs_path@,
                sha256_hex(file.content@),
            ));
            assert forall|k: int| 0 <= k < origin.len() implies (#[trigger] origin[k]) < i + 1
                && first_with_path(files@, hashes.key_views()[k], origin[k] as int) by {
                if k < before_origin.len() {
                    assert(origin[k] == before_origin[k]);
                    assert(hashes.key_views()[k] == before.key_views()[k]);
                } else {
                    assert(hashes.key_views()[k] == file.abs_path@);
                    assert forall|j: int| 0 <= j < i implies (#[trigger] files[j]).abs_path@
                        != file.abs_path@ by {
                        assert(before@.contains_key(files[j].abs_path@));
                    }
                }
            }
        } else {
            assert(recorded(before).contains_key(file.abs_path@));
        }
        i += 1;
    }
    (hashes, origin)
}

impl EmbeddingManager {
    /// The plan for the rebuild of the vectors of a workspace whose state
    /// was `before` and is `after`, given the files and the capacity of the
    /// index.
    pub open spec fn plans(
        plan: VectorPlan,
        files: Seq<EmbedFile>,
        capacity: usize,
        before: WorkspaceVectorState,
        after: WorkspaceVectorState,
    ) -> bool {
        &&& plan.hashes.wf()
        &&& recorded(plan.hashes) == scan_of(files, files.len() as int)
        &&& crate::hashes::reconciles(plan.changes, recorded(before.content_hashes), plan.hashes)
        &&& !plan.changes.is_noop()
        &&& crate::vectors::increasing(plan.removed_keys@)
        &&& forall|k: u64|
            plan.removed_keys@.contains(k) <==> before@.contains_key(k) && (string_views(
                plan.changes.rewritten@,
            ).contains(before@[k].abs_path@) || string_views(plan.changes.to_remove@).contains(
                before@[k].abs_path@,
            ))
        &&& after@ == before@.remove_keys(plan.removed_keys@.to_set())
        &&& after.next_key == before.next_key
        &&& after.same_files(&before)
        &&& plan.picks.len() == plan.changes.to_index.len()
        &&& forall|k: int|
            0 <= k < plan.picks.len() ==> first_with_path(
                files,
                plan.changes.to_index[k]@,
                (#[trigger] plan.picks[k]) as int,
            )
        &&& planned(plan.chunks@, files, plan.picks@, plan.picks.len() as int)
        &&& plan.reserve == capacity_for(
            after@.dom().len(),
            expected_total(files, plan.picks@, plan.picks.len() as int),
            capacity,
        )
    }

    /// Compares the files of a workspace with what was embedded last and
    /// says what a full rebuild of its vectors has to do. `capacity` is the
    /// number of vectors that the index has room for.
    ///
    /// If no rebuild was begun or the vectors are not loaded, nothing
    /// happens. If the files are what was embedded last, the rebuild is
    /// over at once and the right to rebuild is given back. Otherwise the
    /// chunks of changed and removed files leave the records, and the plan
    /// says which vectors leave the index and which chunks are embedded.
    pub fn index_workspace_vectors(
        &mut self,
        workspace_id: &str,
        files: &Vec<EmbedFile>,
        capacity: usize,
    ) -> (step: VectorStep)
        requires
            old(self).wf(),
        ensures
            final(self).ids_go_on(old(self)),
            final(self).wf(),
            final(self).base_dir == old(self).base_dir,
            final(self).model_initialized == old(self).model_initialized,
            match step {
                VectorStep::NotBegun => (!old(self).rebuilding(workspace_id@) || !old(self).loaded(
                    workspace_id@,
                )) && final(self).same(old(self)),
                VectorStep::UpToDate(count) => {
                    &&& old(self).rebuilding(workspace_id@)
                    &&& old(self).loaded(workspace_id@)
                    &&& scan_of(files@, files.len() as int) == recorded(
                        old(self).states()[workspace_id@].content_hashes,
                    )
                    &&& count == old(self).states()[workspace_id@]@.dom().len()
                    &&& final(self).states() == old(self).states()
                    &&& final(self).rebuilds() == old(self).rebuilds().insert(
                        workspace_id@,
                        false,
                    )
                },
                VectorStep::Work(plan) => {
                    &&& old(self).rebuilding(workspace_id@)
                    &&& old(self).loaded(workspace_id@)
                    &&& final(self).updates(
                        old(self),
                        workspace_id@,
                        final(self).states()[workspace_id@],
                    )
                    &&& Self::plans(
                        plan,
                        files@,
                        capacity,
                        old(self).states()[workspace_id@],
                        final(self).states()[workspace_id@],
                    )
                },
            },
    {
        let held = match flags_get(&self.indexing_workspaces, workspace_id) {
            Some(flag) => flag,
            None => false,
        };
        if !held || !vectors_has(&self.workspaces, workspace_id) {
            return VectorStep::NotBegun;
        }
        let (hashes, origin) = scan_files(files);
        let mut state = vectors_remove(&mut self.workspaces, workspace_id).unwrap();
        let ghost before = state;
        let changes = classify(&state.content_hashes, &hashes);
        proof {
            crate::hashes::lemma_classified_reconciles(state.content_hashes, hashes, changes);
            crate::hashes::lemma_noop_iff_same(recorded(state.content_hashes), hashes, changes);
        }
        if changes.nothing_to_do() {
            let count = state.chunk_count();
            vectors_insert(&mut self.workspaces, String::from_str(workspace_id), state);
            assert(self.states() =~= old(self).states());
            flags_insert(&mut self.indexing_workspaces, String::from_str(workspace_id), false);
            return VectorStep::UpToDate(count);
        }
        // The chunks of changed and removed files leave.
        let mut doomed: StringMap<()> = StringMap::new();
        let mut r: usize = 0;
        while r < changes.rewritten.len()
            invariant
                r <= changes.rewritten.len(),
                doomed.wf(),
                doomed@.dom() == string_views(changes.rewritten@).take(r as int).to_set(),
            decreases changes.rewritten.len() - r,
        {
            doomed.insert(changes.rewritten[r].clone(), ());
            assert(string_views(changes.rewritten@).take(r + 1) =~= string_views(
                changes.rewritten@,
            ).take(r as int).push(changes.rewritten@[r as int]@));
            proof {
                crate::collections::lemma_push_to_set(
                    string_views(changes.rewritten@).take(r as int),
                    changes.rewritten@[r as int]@,
                );
            }
            assert(doomed@.dom() =~= string_views(changes.rewritten@).take(r + 1).to_set());
            r += 1;
        }
        assert(string_views(changes.rewritten@).take(r as int) =~= string_views(changes.rewritten@));
        let mut d: usize = 0;
        while d < changes.to_remove.len()
            invariant
                d <= changes.to_remove.len(),
                doomed.wf(),
                doomed@.dom() == string_views(changes.rewritten@).to_set() + string_views(
                    changes.to_remove@,
                ).take(d as int).to_set(),
            decreases changes.to_remove.len() - d,
        {
            doomed.insert(changes.to_remove[d].clone(), ());
            assert(string_views(changes.to_remove@).take(d + 1) =~= string_views(
                changes.to_remove@,
            ).take(d as int).push(changes.to_remove@[d as int]@));
            proof {
                crate::collections::lemma_push_to_set(
                    string_views(changes.to_remove@).take(d as int),
                    changes.to_remove@[d as int]@,
                );
            }
            assert(doomed@.dom() =~= string_views(changes.rewritten@).to_set() + string_views(
                changes.to_remove@,
            ).take(d + 1).to_set());
            d += 1;
        }
        assert(string_views(changes.to_remove@).take(d as int) =~= string_views(changes.to_remove@));
        let removed_keys = state.remove_paths(&doomed);
        // The new and changed files are cut into chunks.
        let mut picks: Vec<usize> = Vec::new();
        let mut chunks: Vec<ChunkMeta> = Vec::new();
        let mut expected: u128 = 0;
        let mut p: usize = 0;
        while p < changes.positions.len()
            invariant
                p <= changes.positions.len(),
                changes.of(before.content_hashes, hashes),
                hashes.wf(),
                origin.len() == hashes.keys.len(),
                forall|k: int|
                    0 <= k < origin.len() ==> first_with_path(
                        files@,
                        hashes.key_views()[k],
                        (#[trigger] origin[k]) as int,
                    ),
                picks.len() == p,
                forall|k: int|
                    0 <= k < p ==> first_with_path(
                        files@,
                        changes.to_index[k]@,
                        (#[trigger] picks[k]) as int,
                    ),
                planned(chunks@, files@, picks@, p as int),
                expected == expected_total(files@, picks@, p as int),
                expected <= p * 201,
            decreases changes.positions.len() - p,
        {
            let at = origin[changes.positions[p]];
            let file = &files[at];
            let ghost old_picks = picks@;
            let ghost old_chunks = chunks@;
            picks.push(at);
            let mut own = chunk_file(
                file.abs_path.as_str(),
                file.relative_path.as_str(),
                file.content.as_str(),
                file.language.as_str(),
            );
            let ghost own_chunks = own@;
            chunks.append(&mut own);
            expected = expected + expected_for(file.content.as_str());
            proof {
                lemma_planned_prefix(old_chunks, files@, old_picks, picks@, p as int);
                assert(chunks@.subrange(0, old_chunks.len() as int) =~= old_chunks);
                assert(chunks@.subrange(old_chunks.len() as int, chunks@.len() as int) =~= own_chunks);
                assert(chunks_of_file(
                    chunks@.subrange(old_chunks.len() as int, chunks@.len() as int),
                    file.abs_path@,
                    file.relative_path@,
                    file.content@,
                    file.language@,
                ));
                let cut = old_chunks.len() as int;
                let picked = files@[picks@[p as int] as int];
                assert(picked == *file);
                assert(planned(chunks@.subrange(0, cut), files@, picks@, p as int));
                assert(chunks_of_file(
                    chunks@.subrange(cut, chunks@.len() as int),
                    picked.abs_path@,
                    picked.relative_path@,
                    picked.content@,
                    picked.language@,
                ));
                assert(tail_is_file(chunks@, files@, picks@, p + 1, cut));
                assert(planned(chunks@, files@, picks@, p + 1));
                lemma_expected_prefix(files@, old_picks, picks@, p as int);
                assert(first_with_path(files@, changes.to_index[p as int]@, at as int));
            }
            p += 1;
        }
        let held_count = state.chunk_count();
        let reserve = reserve_for_many(held_count, expected, capacity);
        vectors_insert(&mut self.workspaces, String::from_str(workspace_id), state);
        assert(self.states() =~= old(self).states().insert(workspace_id@, state));
        VectorStep::Work(VectorPlan { changes, removed_keys, picks, chunks, reserve, hashes })
    }

    /// Closes a rebuild of the vectors whose state was stored: the content
    /// hashes of the files become what is recorded, and the right to rebuild
    /// is given back. Returns the event that reports the completion and the
    /// number of chunks with a vector.
    pub fn finish_vector_rebuild(&mut self, workspace_id: &str, hashes: StringMap<String>) -> (r: (
        ServerEvent,
        usize,
    ))
        requires
            old(self).wf(),
            hashes.wf(),
        ensures
            final(self).ids_go_on(old(self)),
            final(self).wf(),
            final(self).base_dir == old(self).base_dir,
            final(self).model_initialized == old(self).model_initialized,
            final(self).rebuilds() == old(self).rebuilds().insert(
                workspace_id@,
                false,
            ),
            !old(self).loaded(workspace_id@) ==> final(self).states() == old(self).states()
                && r.1 == 0,
            old(self).loaded(workspace_id@) ==> final(self).states() == old(self).states().insert(
                workspace_id@,
                WorkspaceVectorState {
                    content_hashes: hashes,
                    ..old(self).states()[workspace_id@]
                },
            ) && r.1 == old(self).states()[workspace_id@]@.dom().len(),
            r.0 matches ServerEvent::VectorIndexingCompleted {
                workspace_id: w,
                total_chunks,
                duration_ms,
            } && w@ == workspace_id@ && total_chunks == r.1 && duration_ms == 0,
    {
        let total = match vectors_remove(&mut self.workspaces, workspace_id) {
            Some(state) => {
                let mut state = state;
                let total = state.chunk_count();
                state.content_hashes = hashes;
                vectors_insert(&mut self.workspaces, String::from_str(workspace_id), state);
                assert(self.states() =~= old(self).states().insert(workspace_id@, state));
                total
            },
            None => 0,
        };
        flags_insert(&mut self.indexing_workspaces, String::from_str(workspace_id), false);
        (
            ServerEvent::VectorIndexingCompleted {
                workspace_id: String::from_str(workspace_id),
                total_chunks: total,
                duration_ms: 0,
            },
            total,
        )
    }
}

/// A plan for some picks stays one when more picks follow.
proof fn lemma_planned_prefix(
    chunks: Seq<ChunkMeta>,
    files: Seq<EmbedFile>,
    picks: Seq<usize>,
    longer: Seq<usize>,
    count: int,
)
    requires
        0 <= count <= picks.len() <= longer.len(),
        forall|k: int| 0 <= k < picks.len() ==> picks[k] == longer[k],
        planned(chunks, files, picks, count),
    ensures
        planned(chunks, files, longer, count),
    decreases count,
{
    if count > 0 {
        let cut = choose|cut: int| #[trigger]
            tail_is_file(chunks, files, picks, count, cut) && planned(
                chunks.subrange(0, cut),
                files,
                picks,
                count - 1,
            );
        lemma_planned_prefix(chunks.subrange(0, cut), files, picks, longer, count - 1);
        assert(tail_is_file(chunks, files, longer, count, cut));
    }
}

proof fn lemma_expected_prefix(
    files: Seq<EmbedFile>,
    picks: Seq<usize>,
    longer: Seq<usize>,
    count: int,
)
    requires
        0 <= count <= picks.len() <= longer.len(),
        forall|k: int| 0 <= k < picks.len() ==> picks[k] == longer[k],
    ensures
        expected_total(files, picks, count) == expected_total(files, longer, count),
    decreases count,
{
    if count > 0 {
        lemma_expected_prefix(files, picks, longer, count - 1);
    }
}

// ---------------------------------------------------------------------------
// What holds of the ids of a workspace
// ---------------------------------------------------------------------------

/// Every id with a stored chunk is the id of one of the stored entries, and
/// the ids are finitely many.
pub proof fn lemma_stored_ids(entries: Seq<(u64, ChunkMeta)>, count: int)
    requires
        0 <= count <= entries.len(),
    ensures
        crate::vectors::stored_chunks(entries, count).dom().finite(),
        forall|k: u64| #[trigger]
            crate::vectors::stored_chunks(entries, count).contains_key(k) ==> exists|i: int|
                0 <= i < count && (#[trigger] entries[i]).0 == k,
    decreases count,
{
    if count > 0 {
        lemma_stored_ids(entries, count - 1);
        let before = crate::vectors::stored_chunks(entries, count - 1);
        assert forall|k: u64| #[trigger]
            crate::vectors::stored_chunks(entries, count).contains_key(k) implies exists|i: int|
            0 <= i < count && (#[trigger] entries[i]).0 == k by {
            if k == entries[count - 1].0 {
                assert(entries[count - 1].0 == k);
            } else {
                assert(before.contains_key(k));
                let i = choose|i: int| 0 <= i < count - 1 && (#[trigger] entries[i]).0 == k;
                assert(entries[i].0 == k);
            }
        }
    }
}

/// The ids of the index and the ids with a chunk are the same set after a
/// workspace was loaded from an index and a list of chunks that agree: the
/// index holds a vector of the id of every chunk, and no more vectors than
/// there are ids with a chunk.
pub proof fn lemma_loading_keeps_index_and_chunks_together(index_ids: Set<u64>, pair: StoredPair)
    requires
        index_ids.finite(),
        index_ids.len() == pair.index_size,
        pair.agrees(),
        forall|i: int|
            0 <= i < pair.entries.len() && pair.held[i] ==> index_ids.contains(
                (#[trigger] pair.entries[i]).0,
            ),
    ensures
        index_ids == pair.chunks().dom(),
{
    lemma_stored_ids(pair.entries@, pair.entries.len() as int);
    let ids = pair.chunks().dom();
    assert forall|k: u64| ids.contains(k) implies index_ids.contains(k) by {
        assert(pair.chunks().contains_key(k));
        let i = choose|i: int| 0 <= i < pair.entries.len() && (#[trigger] pair.entries[i]).0 == k;
        assert(pair.held[i]);
    }
    assert(ids.subset_of(index_ids));
    vstd::set_lib::lemma_subset_equality(ids, index_ids);
}

/// The states that the manager goes through, one after the other, while
/// the vectors of `workspace_id` stay loaded: the first is well formed, and
/// in each the ids go on from the one before, as they do after every
/// operation of the manager.
pub open spec fn manager_history(states: Seq<EmbeddingManager>, workspace_id: Seq<char>) -> bool {
    &&& forall|i: int| 0 <= i < states.len() ==> (#[trigger] states[i]).loaded(workspace_id)
    &&& states.len() > 0 ==> states[0].wf()
    &&& forall|i: int| 0 <= i < states.len() - 1 ==> #[trigger] goes_on_at(states, i)
}

/// In state `at + 1` the ids go on from state `at`.
pub open spec fn goes_on_at(states: Seq<EmbeddingManager>, at: int) -> bool {
    states[at + 1].ids_go_on(&states[at])
}

/// The states of the vectors of one workspace along the states of the
/// manager.
pub open spec fn states_of(states: Seq<EmbeddingManager>, workspace_id: Seq<char>) -> Seq<
    WorkspaceVectorState,
> {
    Seq::new(states.len(), |i: int| states[i].states()[workspace_id])
}

/// Vector ids of a workspace are handed out in strictly increasing order
/// for as long as its vectors are loaded, and an id that had a chunk is not
/// handed out again: what the manager goes through is a history of the
/// states of the workspace.
pub proof fn lemma_manager_history(states: Seq<EmbeddingManager>, workspace_id: Seq<char>)
    requires
        manager_history(states, workspace_id),
    ensures
        crate::vectors::history(states_of(states, workspace_id)),
{
    let of = states_of(states, workspace_id);
    if states.len() > 0 {
        assert(states[0].loaded(workspace_id));
        assert(of[0].wf());
    }
    assert forall|i: int| 0 <= i < of.len() - 1 implies #[trigger] crate::vectors::follows_at(
        of,
        i,
    ) by {
        assert(goes_on_at(states, i));
        assert(states[i].loaded(workspace_id));
        assert(states[i + 1].loaded(workspace_id));
    }
}

} // verus!
