//! The chunks of one workspace that have a vector, by vector id.
//!
//! Ids are handed out in increasing order and never again. The entries are
//! kept in the order of their ids.

use crate::collections::{string_views, StringMap};
use vstd::prelude::*;
use vstd::string::StringExecFns;

verus! {

/// What is recorded of a chunk beside its vector.
pub struct ChunkMeta {
    pub relative_path: String,
    pub abs_path: String,
    pub chunk_text: String,
    /// First line of the chunk, counted from 1.
    pub line_start: usize,
    /// Last line of the chunk.
    pub line_end: usize,
    pub language: String,
}

impl Clone for ChunkMeta {
    fn clone(&self) -> (copy: Self)
        ensures
            copy == *self,
    {
        ChunkMeta {
            relative_path: self.relative_path.clone(),
            abs_path: self.abs_path.clone(),
            chunk_text: self.chunk_text.clone(),
            line_start: self.line_start,
            line_end: self.line_end,
            language: self.language.clone(),
        }
    }
}

/// The vector side of one workspace.
pub struct WorkspaceVectorState {
    /// The ids that have a chunk, in increasing order.
    pub keys: Vec<u64>,
    /// The chunk of each id, in the order of the ids.
    pub metadata: Vec<ChunkMeta>,
    /// The id that is handed out next.
    pub next_key: u64,
    /// The content hash of each file that was embedded.
    pub content_hashes: StringMap<String>,
    /// Something changed since the state was last stored.
    pub dirty: bool,
    /// When the state was last stored, in milliseconds of the caller's
    /// clock.
    pub last_save: u64,
    pub index_path: String,
    pub meta_path: String,
    pub hash_path: String,
}

/// `keys` is in strictly increasing order.
pub open spec fn increasing(keys: Seq<u64>) -> bool {
    forall|i: int, j: int| 0 <= i < j < keys.len() ==> keys[i] < keys[j]
}

impl View for WorkspaceVectorState {
    type V = Map<u64, ChunkMeta>;

    /// The chunk of each id.
    open spec fn view(&self) -> Map<u64, ChunkMeta> {
        Map::new(|k: u64| self.keys@.contains(k), |k: u64| self.metadata[self.keys@.index_of(k)])
    }
}

impl WorkspaceVectorState {
    /// Each id has its chunk, the ids are in increasing order and below the
    /// next id, unless the ids ran out.
    pub open spec fn wf(&self) -> bool {
        &&& self.keys.len() == self.metadata.len()
        &&& increasing(self.keys@)
        &&& forall|i: int|
            0 <= i < self.keys.len() ==> self.keys[i] < self.next_key || self.next_key == u64::MAX
        &&& self.content_hashes.wf()
    }

    /// Everything but the chunks and the next id is as in `other`.
    pub open spec fn same_files(&self, other: &WorkspaceVectorState) -> bool {
        &&& self.content_hashes == other.content_hashes
        &&& self.dirty == other.dirty
        &&& self.last_save == other.last_save
        &&& self.index_path == other.index_path
        &&& self.meta_path == other.meta_path
        &&& self.hash_path == other.hash_path
    }

    /// `self` can come after `earlier` in the life of a workspace: it is
    /// well formed and its next id is not below that of `earlier`.
    pub open spec fn follows(&self, earlier: &WorkspaceVectorState) -> bool {
        self.wf() && earlier.next_key <= self.next_key
    }

    /// The id at position `i` has the chunk at position `i`.
    pub proof fn lemma_position(&self, i: int)
        requires
            self.wf(),
            0 <= i < self.keys.len(),
        ensures
            self.keys@.index_of(self.keys[i]) == i,
            self@.contains_key(self.keys[i]),
            self@[self.keys[i]] == self.metadata[i],
    {
        assert(self.keys@.contains(self.keys[i]));
        let j = self.keys@.index_of(self.keys[i]);
        if j < i {
            assert(self.keys[j] < self.keys[i]);
        }
        if i < j {
            assert(self.keys[i] < self.keys[j]);
        }
    }

    /// The ids are as many as the entries.
    pub proof fn lemma_len(&self)
        requires
            self.wf(),
        ensures
            self@.dom().finite(),
            self@.dom().len() == self.keys.len(),
    {
        assert(self@.dom() =~= self.keys@.to_set());
        assert(self.keys@.no_duplicates()) by {
            assert forall|i: int, j: int|
                0 <= i < self.keys.len() && 0 <= j < self.keys.len() && i != j implies self.keys[i]
                != self.keys[j] by {
                if i < j {
                    assert(self.keys[i] < self.keys[j]);
                } else {
                    assert(self.keys[j] < self.keys[i]);
                }
            }
        }
        self.keys@.unique_seq_to_set();
    }

    /// A state without chunks that hands out ids from `next_key` on.
    pub fn empty(
        next_key: u64,
        content_hashes: StringMap<String>,
        now: u64,
        index_path: String,
        meta_path: String,
        hash_path: String,
    ) -> (s: Self)
        requires
            content_hashes.wf(),
        ensures
            s.wf(),
            s@ == Map::<u64, ChunkMeta>::empty(),
            s.keys.len() == 0,
            s.next_key == next_key,
            s.content_hashes == content_hashes,
            !s.dirty,
            s.last_save == now,
            s.index_path == index_path,
            s.meta_path == meta_path,
            s.hash_path == hash_path,
    {
        let s = WorkspaceVectorState {
            keys: Vec::new(),
            metadata: Vec::new(),
            next_key,
            content_hashes,
            dirty: false,
            last_save: now,
            index_path,
            meta_path,
            hash_path,
        };
        assert(s@ =~= Map::<u64, ChunkMeta>::empty());
        s
    }

    /// Number of chunks that have a vector.
    pub fn chunk_count(&self) -> (n: usize)
        requires
            self.wf(),
        ensures
            n == self.keys.len(),
            n == self@.dom().len(),
    {
        proof {
            self.lemma_len();
        }
        self.keys.len()
    }

    /// Position of `key` among the ids, if it has a chunk.
    pub fn position(&self, key: u64) -> (r: Option<usize>)
        requires
            self.wf(),
        ensures
            match r {
                Some(i) => i < self.keys.len() && self.keys[i as int] == key && self@.contains_key(
                    key,
                ) && self@[key] == self.metadata[i as int],
                None => !self@.contains_key(key),
            },
    {
        let mut low: usize = 0;
        let mut high: usize = self.keys.len();
        while low < high
            invariant
                low <= high <= self.keys.len(),
                self.wf(),
                forall|j: int| 0 <= j < low ==> self.keys[j] < key,
                forall|j: int| high <= j < self.keys.len() ==> self.keys[j] > key,
            decreases high - low,
        {
            let mid: usize = low + (high - low) / 2;
            let at = self.keys[mid];
            if at == key {
                proof {
                    self.lemma_position(mid as int);
                }
                return Some(mid);
            } else if at < key {
                assert forall|j: int| 0 <= j < mid + 1 implies self.keys[j] < key by {
                    if j < mid {
                        assert(self.keys[j] < self.keys[mid as int]);
                    }
                }
                low = mid + 1;
            } else {
                assert forall|j: int| mid <= j < self.keys.len() implies self.keys[j] > key by {
                    if j > mid {
                        assert(self.keys[mid as int] < self.keys[j]);
                    }
                }
                high = mid;
            }
        }
        None
    }

    /// The chunk of `key`, if it has one.
    pub fn get(&self, key: u64) -> (r: Option<&ChunkMeta>)
        requires
            self.wf(),
        ensures
            match r {
                Some(meta) => self@.contains_key(key) && *meta == self@[key],
                None => !self@.contains_key(key),
            },
    {
        match self.position(key) {
            Some(i) => Some(&self.metadata[i]),
            None => None,
        }
    }

    /// Hands out the next id. Ids go up by one; the largest number is never
    /// handed out, and once it is reached no id is.
    pub fn allocate(&mut self) -> (key: Option<u64>)
        requires
            old(self).wf(),
        ensures
            final(self).wf(),
            final(self).follows(old(self)),
            final(self)@ == old(self)@,
            final(self).keys == old(self).keys,
            final(self).metadata == old(self).metadata,
            final(self).same_files(old(self)),
            match key {
                Some(k) => k == old(self).next_key && final(self).next_key == k + 1
                    && !old(self)@.contains_key(k) && final(self).admits(k),
                None => old(self).next_key == u64::MAX && final(self).next_key == u64::MAX,
            },
    {
        if self.next_key == u64::MAX {
            return None;
        }
        let key = self.next_key;
        proof {
            if self@.contains_key(key) {
                let i = self.keys@.index_of(key);
                assert(self.keys[i] < self.next_key);
            }
        }
        self.next_key = key + 1;
        Some(key)
    }

    /// Whether `key` can get its chunk now: it was handed out, and no id
    /// from it on has a chunk.
    pub open spec fn admits(&self, key: u64) -> bool {
        key < self.next_key && forall|i: int| 0 <= i < self.keys.len() ==> self.keys[i] < key
    }

    /// Records the chunk of an id whose vector is in the index. Returns
    /// whether the id was taken; an id that cannot get a chunk changes
    /// nothing.
    pub fn commit(&mut self, key: u64, meta: ChunkMeta) -> (taken: bool)
        requires
            old(self).wf(),
        ensures
            final(self).wf(),
            final(self).follows(old(self)),
            taken == old(self).admits(key),
            taken ==> final(self)@ == old(self)@.insert(key, meta) && !old(self)@.contains_key(key),
            !taken ==> final(self)@ == old(self)@,
            final(self).next_key == old(self).next_key,
            final(self).same_files(old(self)),
    {
        let n = self.keys.len();
        let fits = key < self.next_key && (n == 0 || self.keys[n - 1] < key);
        proof {
            if n > 0 && self.keys[n - 1] < key {
                assert forall|i: int| 0 <= i < n implies self.keys[i] < key by {
                    if i < n - 1 {
                        assert(self.keys[i] < self.keys[n - 1]);
                    }
                }
            }
        }
        if !fits {
            return false;
        }
        let ghost before = *self;
        self.keys.push(key);
        self.metadata.push(meta);
        proof {
            assert(!before@.contains_key(key)) by {
                if before.keys@.contains(key) {
                    let i = before.keys@.index_of(key);
                    assert(before.keys[i] < key);
                }
            }
            assert forall|k: u64| #[trigger]
                before@.insert(key, meta).contains_key(k) implies self@.contains_key(k) && self@[k]
                == before@.insert(key, meta)[k] by {
                if k == key {
                    assert(self.keys[n as int] == key);
                    self.lemma_position(n as int);
                } else {
                    let j = before.keys@.index_of(k);
                    assert(self.keys[j] == k);
                    self.lemma_position(j);
                }
            }
            assert forall|k: u64| #[trigger]
                self@.contains_key(k) implies before@.insert(key, meta).contains_key(k) by {
                let j = self.keys@.index_of(k);
                if j < n {
                    assert(before.keys[j] == k);
                }
            }
            assert(self@ =~= before@.insert(key, meta));
        }
        true
    }

    /// Takes out every chunk of a file whose path is a key of `doomed`.
    /// Returns the ids that had one, in increasing order: their vectors are
    /// to leave the index.
    pub fn remove_paths(&mut self, doomed: &StringMap<()>) -> (removed: Vec<u64>)
        requires
            old(self).wf(),
            doomed.wf(),
        ensures
            final(self).wf(),
            final(self).follows(old(self)),
            increasing(removed@),
            forall|k: u64|
                removed@.contains(k) <==> old(self)@.contains_key(k) && doomed@.contains_key(
                    old(self)@[k].abs_path@,
                ),
            forall|k: u64|
                final(self)@.contains_key(k) <==> old(self)@.contains_key(k)
                    && !doomed@.contains_key(old(self)@[k].abs_path@),
            forall|k: u64| final(self)@.contains_key(k) ==> final(self)@[k] == old(self)@[k],
            final(self)@ == old(self)@.remove_keys(removed@.to_set()),
            final(self).next_key == old(self).next_key,
            final(self).same_files(old(self)),
    {
        let mut keys: Vec<u64> = Vec::new();
        let mut metadata: Vec<ChunkMeta> = Vec::new();
        let mut removed: Vec<u64> = Vec::new();
        let ghost mut origin: Seq<int> = seq![];
        let ghost mut gone: Seq<int> = seq![];
        let mut i: usize = 0;
        while i < self.keys.len()
            invariant
                i <= self.keys.len(),
                self.wf(),
                doomed.wf(),
                *self == *old(self),
                keys.len() == metadata.len() == origin.len(),
                removed.len() == gone.len(),
                forall|a: int|
                    0 <= a < origin.len() ==> 0 <= #[trigger] origin[a] < i && keys[a]
                        == self.keys[origin[a]] && metadata[a] == self.metadata[origin[a]]
                        && !doomed@.contains_key(self.metadata[origin[a]].abs_path@),
                forall|a: int, b: int| 0 <= a < b < origin.len() ==> origin[a] < origin[b],
                forall|a: int|
                    0 <= a < gone.len() ==> 0 <= #[trigger] gone[a] < i && removed[a]
                        == self.keys[gone[a]] && doomed@.contains_key(
                        self.metadata[gone[a]].abs_path@,
                    ),
                forall|a: int, b: int| 0 <= a < b < gone.len() ==> gone[a] < gone[b],
                forall|j: int|
                    0 <= j < i ==> (if doomed@.contains_key(self.metadata[j].abs_path@) {
                        gone.contains(j)
                    } else {
                        origin.contains(j)
                    }),
            decreases self.keys.len() - i,
        {
            let ghost before_origin = origin;
            let ghost before_gone = gone;
            if doomed.contains_key(self.metadata[i].abs_path.as_str()) {
                removed.push(self.keys[i]);
                proof {
                    gone = gone.push(i as int);
                }
            } else {
                keys.push(self.keys[i]);
                metadata.push(self.metadata[i].clone());
                proof {
                    origin = origin.push(i as int);
                }
            }
            proof {
                assert forall|j: int| 0 <= j < i + 1 implies (if doomed@.contains_key(
                    self.metadata[j].abs_path@,
                ) {
                    gone.contains(j)
                } else {
                    origin.contains(j)
                }) by {
                    if j < i {
                        if doomed@.contains_key(self.metadata[j].abs_path@) {
                            assert(before_gone.contains(j));
                            let a = choose|a: int| 0 <= a < before_gone.len() && before_gone[a] == j;
                            assert(gone[a] == j);
                        } else {
                            assert(before_origin.contains(j));
                            let a = choose|a: int|
                                0 <= a < before_origin.len() && before_origin[a] == j;
                            assert(origin[a] == j);
                        }
                    } else {
                        if doomed@.contains_key(self.metadata[j].abs_path@) {
                            assert(gone[before_gone.len() as int] == j);
                        } else {
                            assert(origin[before_origin.len() as int] == j);
                        }
                    }
                }
            }
            i += 1;
        }
        let ghost before = *self;
        self.keys = keys;
        self.metadata = metadata;
        proof {
            assert forall|a: int, b: int| 0 <= a < b < self.keys.len() implies self.keys[a]
                < self.keys[b] by {
                assert(origin[a] < origin[b]);
                assert(before.keys[origin[a]] < before.keys[origin[b]]);
            }
            assert forall|a: int, b: int| 0 <= a < b < removed.len() implies removed[a]
                < removed[b] by {
                assert(gone[a] < gone[b]);
                assert(before.keys[gone[a]] < before.keys[gone[b]]);
            }
            assert forall|a: int| 0 <= a < self.keys.len() implies self.keys[a] < self.next_key
                || self.next_key == u64::MAX by {
                assert(before.keys[origin[a]] < before.next_key || before.next_key == u64::MAX);
            }
            assert forall|k: u64|
                self@.contains_key(k) <==> before@.contains_key(k) && !doomed@.contains_key(
                    before@[k].abs_path@,
                ) by {
                if self@.contains_key(k) {
                    let a = self.keys@.index_of(k);
                    before.lemma_position(origin[a]);
                }
                if before@.contains_key(k) && !doomed@.contains_key(before@[k].abs_path@) {
                    let j = before.keys@.index_of(k);
                    before.lemma_position(j);
                    assert(origin.contains(j));
                    let a = choose|a: int| 0 <= a < origin.len() && origin[a] == j;
                    assert(self.keys[a] == k);
                }
            }
            assert forall|k: u64| self@.contains_key(k) implies self@[k] == before@[k] by {
                let a = self.keys@.index_of(k);
                self.lemma_position(a);
                before.lemma_position(origin[a]);
            }
            assert forall|k: u64|
                removed@.contains(k) <==> before@.contains_key(k) && doomed@.contains_key(
                    before@[k].abs_path@,
                ) by {
                if removed@.contains(k) {
                    let a = choose|a: int| 0 <= a < removed@.len() && removed@[a] == k;
                    before.lemma_position(gone[a]);
                }
                if before@.contains_key(k) && doomed@.contains_key(before@[k].abs_path@) {
                    let j = before.keys@.index_of(k);
                    before.lemma_position(j);
                    assert(gone.contains(j));
                    let a = choose|a: int| 0 <= a < gone.len() && gone[a] == j;
                    assert(removed@[a] == k);
                }
            }
            assert(self@ =~= before@.remove_keys(removed@.to_set()));
        }
        removed
    }

    /// Takes out every chunk of the file at `abs_path`. Returns the ids that
    /// had one, in increasing order: their vectors are to leave the index.
    pub fn remove_path(&mut self, abs_path: &str) -> (removed: Vec<u64>)
        requires
            old(self).wf(),
        ensures
            final(self).wf(),
            final(self).follows(old(self)),
            increasing(removed@),
            forall|k: u64|
                removed@.contains(k) <==> old(self)@.contains_key(k) && old(self)@[k].abs_path@
                    == abs_path@,
            forall|k: u64|
                final(self)@.contains_key(k) <==> old(self)@.contains_key(k) && old(self)@[k].abs_path@ != abs_path@,
            forall|k: u64| final(self)@.contains_key(k) ==> final(self)@[k] == old(self)@[k],
            final(self)@ == old(self)@.remove_keys(removed@.to_set()),
            final(self).next_key == old(self).next_key,
            final(self).same_files(old(self)),
    {
        let mut doomed: StringMap<()> = StringMap::new();
        doomed.insert(String::from_str(abs_path), ());
        assert forall|p: Seq<char>| doomed@.contains_key(p) <==> p == abs_path@ by {}
        self.remove_paths(&doomed)
    }
}

/// The id after `key`; the largest number stays.
pub open spec fn after(key: u64) -> u64 {
    if key < u64::MAX {
        (key + 1) as u64
    } else {
        key
    }
}

/// The chunks of the first `count` stored entries: a later entry of an id
/// replaces an earlier one.
pub open spec fn stored_chunks(entries: Seq<(u64, ChunkMeta)>, count: int) -> Map<u64, ChunkMeta>
    decreases count,
{
    if count <= 0 {
        Map::empty()
    } else {
        stored_chunks(entries, count - 1).insert(entries[count - 1].0, entries[count - 1].1)
    }
}

/// The id to hand out first after the first `count` stored entries: one
/// more than the largest id among them, and at least `floor`.
pub open spec fn next_after(entries: Seq<(u64, ChunkMeta)>, count: int, floor: u64) -> u64
    decreases count,
{
    if count <= 0 {
        floor
    } else {
        let before = next_after(entries, count - 1, floor);
        if after(entries[count - 1].0) > before {
            after(entries[count - 1].0)
        } else {
            before
        }
    }
}

impl WorkspaceVectorState {
    /// Position of the first id that is not below `key`; the number of ids
    /// if all are below.
    pub fn first_not_below(&self, key: u64) -> (at: usize)
        requires
            self.wf(),
        ensures
            at <= self.keys.len(),
            forall|j: int| 0 <= j < at ==> self.keys[j] < key,
            forall|j: int| at <= j < self.keys.len() ==> self.keys[j] >= key,
    {
        let n = self.keys.len();
        if n == 0 {
            return 0;
        }
        if self.keys[n - 1] < key {
            // the usual case: ids come in increasing order
            assert forall|j: int| 0 <= j < n implies self.keys[j] < key by {
                if j < n - 1 {
                    assert(self.keys[j] < self.keys[n - 1]);
                }
            }
            return n;
        }
        let mut low: usize = 0;
        let mut high: usize = n;
        while low < high
            invariant
                low <= high <= self.keys.len(),
                self.wf(),
                forall|j: int| 0 <= j < low ==> self.keys[j] < key,
                forall|j: int| high <= j < self.keys.len() ==> self.keys[j] >= key,
            decreases high - low,
        {
            let mid: usize = low + (high - low) / 2;
            if self.keys[mid] < key {
                assert forall|j: int| 0 <= j < mid + 1 implies self.keys[j] < key by {
                    if j < mid {
                        assert(self.keys[j] < self.keys[mid as int]);
                    }
                }
                low = mid + 1;
            } else {
                assert forall|j: int| mid <= j < self.keys.len() implies self.keys[j] >= key by {
                    if j > mid {
                        assert(self.keys[mid as int] < self.keys[j]);
                    }
                }
                high = mid;
            }
        }
        low
    }

    /// Sets the chunk of `key`, whatever ids have chunks. The next id to
    /// hand out moves past `key` if it is not past it already.
    pub fn put(&mut self, key: u64, meta: ChunkMeta)
        requires
            old(self).wf(),
        ensures
            final(self).wf(),
            final(self).follows(old(self)),
            final(self)@ == old(self)@.insert(key, meta),
            final(self).next_key == (if after(key) > old(self).next_key {
                after(key)
            } else {
                old(self).next_key
            }),
            final(self).same_files(old(self)),
    {
        let ghost before = *self;
        let at = self.first_not_below(key);
        let next: u64 = if key < u64::MAX {
            key + 1
        } else {
            key
        };
        if at < self.keys.len() && self.keys[at] == key {
            self.metadata.push(meta);
            self.metadata.swap_remove(at);
            if next > self.next_key {
                self.next_key = next;
            }
            proof {
                assert forall|k: u64| #[trigger] self@.contains_key(k) implies self@[k] == before@.insert(
                    key,
                    meta,
                )[k] by {
                    let j = self.keys@.index_of(k);
                    before.lemma_position(j);
                    before.lemma_position(at as int);
                }
                assert(self@ =~= before@.insert(key, meta));
            }
        } else {
            proof {
                assert forall|j: int| at <= j < self.keys.len() implies self.keys[j] > key by {
                    if j > at {
                        assert(self.keys[at as int] < self.keys[j]);
                    }
                }
            }
            self.keys.insert(at, key);
            self.metadata.insert(at, meta);
            if next > self.next_key {
                self.next_key = next;
            }
            proof {
                assert forall|a: int, b: int| 0 <= a < b < self.keys.len() implies self.keys[a]
                    < self.keys[b] by {
                    let a0 = if a < at { a } else { a - 1 };
                    let b0 = if b < at { b } else { b - 1 };
                    if a != at && b != at {
                        assert(before.keys[a0] < before.keys[b0]);
                    }
                }
                assert forall|i: int| 0 <= i < self.keys.len() implies self.keys[i] < self.next_key
                    || self.next_key == u64::MAX by {
                    if i != at {
                        let i0 = if i < at { i } else { i - 1 };
                        assert(before.keys[i0] < before.next_key || before.next_key == u64::MAX);
                    }
                }
                assert forall|k: u64| #[trigger]
                    before@.insert(key, meta).contains_key(k) implies self@.contains_key(k)
                    && self@[k] == before@.insert(key, meta)[k] by {
                    if k == key {
                        assert(self.keys[at as int] == key);
                        self.lemma_position(at as int);
                    } else {
                        let j = before.keys@.index_of(k);
                        before.lemma_position(j);
                        let j1 = if j < at { j } else { j + 1 };
                        assert(self.keys[j1] == k);
                        self.lemma_position(j1);
                    }
                }
                assert forall|k: u64| #[trigger]
                    self@.contains_key(k) implies before@.insert(key, meta).contains_key(k) by {
                    let j = self.keys@.index_of(k);
                    if j != at {
                        let j0 = if j < at { j } else { j - 1 };
                        assert(before.keys[j0] == k);
                    }
                }
                assert(self@ =~= before@.insert(key, meta));
            }
        }
    }

    /// Takes in the entries that were stored for a workspace.
    pub fn restore(&mut self, entries: Vec<(u64, ChunkMeta)>)
        requires
            old(self).wf(),
            old(self).keys.len() == 0,
        ensures
            final(self).wf(),
            final(self).follows(old(self)),
            final(self)@ == stored_chunks(entries@, entries.len() as int),
            final(self).next_key == next_after(entries@, entries.len() as int, old(self).next_key),
            final(self).same_files(old(self)),
    {
        let mut i: usize = 0;
        assert(self@ =~= Map::<u64, ChunkMeta>::empty());
        while i < entries.len()
            invariant
                i <= entries.len(),
                self.wf(),
                self@ == stored_chunks(entries@, i as int),
                self.next_key == next_after(entries@, i as int, old(self).next_key),
                self.same_files(old(self)),
            decreases entries.len() - i,
        {
            let key = entries[i].0;
            let meta = entries[i].1.clone();
            self.put(key, meta);
            i += 1;
        }
        proof {
            lemma_next_after_floor(entries@, entries.len() as int, old(self).next_key);
        }
    }
}

// ---------------------------------------------------------------------------
// The states of all workspaces
// ---------------------------------------------------------------------------

/// The state that the map keeps for each workspace whose vectors are
/// loaded, by the id of the workspace.
pub uninterp spec fn vector_states(map: dashmap::DashMap<String, WorkspaceVectorState>) -> Map<
    Seq<char>,
    WorkspaceVectorState,
>;

/// `DashMap::new`: a map that holds nothing.
#[verifier::external_body]
pub(crate) fn vectors_new() -> (map: dashmap::DashMap<String, WorkspaceVectorState>)
    ensures
        vector_states(map) =~= Map::empty(),
{
    dashmap::DashMap::new()
}

/// `DashMap::insert`: afterwards the key has this value, and every other
/// key what it had.
#[verifier::external_body]
pub(crate) fn vectors_insert(
    map: &mut dashmap::DashMap<String, WorkspaceVectorState>,
    key: String,
    value: WorkspaceVectorState,
)
    ensures
        vector_states(*final(map)) == vector_states(*old(map)).insert(key@, value),
{
    map.insert(key, value);
}

/// `DashMap::remove`: afterwards the map does not hold the key, and every
/// other key has what it had; the result is the value that the key had.
#[verifier::external_body]
pub(crate) fn vectors_remove(map: &mut dashmap::DashMap<String, WorkspaceVectorState>, key: &str) -> (removed:
    Option<WorkspaceVectorState>)
    ensures
        vector_states(*final(map)) == vector_states(*old(map)).remove(key@),
        removed is Some == vector_states(*old(map)).contains_key(key@),
        removed matches Some(value) ==> value == vector_states(*old(map))[key@],
{
    map.remove(key).map(|pair| pair.1)
}

/// `DashMap::contains_key`: whether the map holds the key.
#[verifier::external_body]
pub(crate) fn vectors_has(map: &dashmap::DashMap<String, WorkspaceVectorState>, key: &str) -> (held: bool)
    ensures
        held == vector_states(*map).contains_key(key@),
{
    map.contains_key(key)
}

/// `DashMap::get`, with one field of the state copied out: whether the
/// state of the key changed since it was stored, if the map holds the key.
#[verifier::external_body]
pub(crate) fn vectors_dirty(map: &dashmap::DashMap<String, WorkspaceVectorState>, key: &str) -> (found:
    Option<bool>)
    ensures
        found is Some == vector_states(*map).contains_key(key@),
        found matches Some(dirty) ==> dirty == vector_states(*map)[key@].dirty,
{
    map.get(key).map(|entry| entry.value().dirty)
}

/// `DashMap::iter`, with the keys copied out: every key of the map, once,
/// in an order that is not fixed.
#[verifier::external_body]
pub(crate) fn vectors_keys(map: &dashmap::DashMap<String, WorkspaceVectorState>) -> (keys: Vec<String>)
    ensures
        string_views(keys@).no_duplicates(),
        string_views(keys@).to_set() == vector_states(*map).dom(),
{
    map.iter().map(|entry| entry.key().clone()).collect()
}

// ---------------------------------------------------------------------------
// What holds of ids
// ---------------------------------------------------------------------------

/// The next id after stored entries were taken in is not below the one
/// before.
pub proof fn lemma_next_after_floor(entries: Seq<(u64, ChunkMeta)>, count: int, floor: u64)
    ensures
        next_after(entries, count, floor) >= floor,
    decreases count,
{
    if count > 0 {
        lemma_next_after_floor(entries, count - 1, floor);
    }
}

/// The states that the vectors of a workspace go through, one after the
/// other: the first is well formed and each follows the one before it, as
/// the state after each operation follows the state before.
pub open spec fn history(states: Seq<WorkspaceVectorState>) -> bool {
    &&& states.len() > 0 ==> states[0].wf()
    &&& forall|i: int| 0 <= i < states.len() - 1 ==> #[trigger] follows_at(states, i)
}

/// State `at + 1` follows state `at`.
pub open spec fn follows_at(states: Seq<WorkspaceVectorState>, at: int) -> bool {
    states[at + 1].follows(&states[at])
}

/// From state `at` to state `at + 1` an id was handed out: the next id of
/// state `at`.
pub open spec fn hands_out(states: Seq<WorkspaceVectorState>, at: int) -> bool {
    0 <= at < states.len() - 1 && states[at + 1].next_key == states[at].next_key + 1
}

/// Along a history the next id never goes down.
pub proof fn lemma_next_id_never_goes_down(states: Seq<WorkspaceVectorState>, a: int, b: int)
    requires
        history(states),
        0 <= a <= b < states.len(),
    ensures
        states[a].next_key <= states[b].next_key,
    decreases b - a,
{
    if a < b {
        lemma_next_id_never_goes_down(states, a, b - 1);
        assert(follows_at(states, b - 1));
    }
}

/// Ids are handed out in strictly increasing order: of two ids handed out
/// in the life of a workspace, the later is the larger.
pub proof fn lemma_ids_strictly_increase(states: Seq<WorkspaceVectorState>, a: int, b: int)
    requires
        history(states),
        hands_out(states, a),
        hands_out(states, b),
        a < b,
    ensures
        states[a].next_key < states[b].next_key,
{
    lemma_next_id_never_goes_down(states, a + 1, b);
}

/// No id is used twice: an id that had a chunk at some time, whether it
/// still has one or not, is not handed out afterwards.
pub proof fn lemma_ids_are_not_used_again(states: Seq<WorkspaceVectorState>, a: int, b: int, key: u64)
    requires
        history(states),
        0 <= a <= b,
        states[a]@.contains_key(key),
        hands_out(states, b),
    ensures
        states[b].next_key != key,
{
    let at = states[a].keys@.index_of(key);
    assert(states[a].keys[at] == key);
    if a > 0 {
        assert(follows_at(states, a - 1));
    }
    lemma_next_id_never_goes_down(states, a, b);
}

/// The ids of the index and the ids with a chunk stay the same set when the
/// vectors of the removed ids leave the index.
pub proof fn lemma_removal_keeps_index_and_chunks_together(
    index_ids: Set<u64>,
    before: WorkspaceVectorState,
    after: WorkspaceVectorState,
    removed: Seq<u64>,
)
    requires
        index_ids == before@.dom(),
        after@ == before@.remove_keys(removed.to_set()),
    ensures
        index_ids.difference(removed.to_set()) == after@.dom(),
{
    assert(index_ids.difference(removed.to_set()) =~= after@.dom());
}

/// The ids of the index and the ids with a chunk stay the same set when a
/// vector is added to the index and its chunk is recorded.
pub proof fn lemma_commit_keeps_index_and_chunks_together(
    index_ids: Set<u64>,
    before: WorkspaceVectorState,
    after: WorkspaceVectorState,
    key: u64,
    meta: ChunkMeta,
)
    requires
        index_ids == before@.dom(),
        after@ == before@.insert(key, meta),
    ensures
        index_ids.insert(key) == after@.dom(),
{
    assert(index_ids.insert(key) =~= after@.dom());
}

/// A vector was added to the index under `key` and its chunk recorded.
pub open spec fn added_by(
    ids: Set<u64>,
    chunks: Map<u64, ChunkMeta>,
    next: Set<u64>,
    then: Map<u64, ChunkMeta>,
    key: u64,
    meta: ChunkMeta,
) -> bool {
    next == ids.insert(key) && then == chunks.insert(key, meta)
}

/// The vectors of `removed` left the index and their chunks were taken out.
pub open spec fn removed_by(
    ids: Set<u64>,
    chunks: Map<u64, ChunkMeta>,
    next: Set<u64>,
    then: Map<u64, ChunkMeta>,
    removed: Set<u64>,
) -> bool {
    next == ids.difference(removed) && then == chunks.remove_keys(removed)
}

/// Step `at` in the life of a vector index, given as the ids that it holds,
/// and of the chunks beside it: nothing, a vector added with its chunk, or
/// vectors removed with their chunks.
pub open spec fn vector_step_at(ids: Seq<Set<u64>>, chunks: Seq<Map<u64, ChunkMeta>>, at: int) -> bool {
    ||| ids[at + 1] == ids[at] && chunks[at + 1] == chunks[at]
    ||| exists|key: u64, meta: ChunkMeta| #[trigger]
        added_by(ids[at], chunks[at], ids[at + 1], chunks[at + 1], key, meta)
    ||| exists|removed: Set<u64>| #[trigger]
        removed_by(ids[at], chunks[at], ids[at + 1], chunks[at + 1], removed)
}

/// The life of a vector index and its chunks from the time they were
/// loaded, when the index held the ids with a chunk and no others.
pub open spec fn vector_life(ids: Seq<Set<u64>>, chunks: Seq<Map<u64, ChunkMeta>>) -> bool {
    &&& ids.len() == chunks.len()
    &&& ids.len() > 0
    &&& ids[0] == chunks[0].dom()
    &&& forall|i: int| 0 <= i < ids.len() - 1 ==> #[trigger] vector_step_at(ids, chunks, i)
}

/// At every time in the life of a vector index, the ids of the index are
/// the ids with a chunk.
pub proof fn lemma_index_and_chunks_stay_together(
    ids: Seq<Set<u64>>,
    chunks: Seq<Map<u64, ChunkMeta>>,
    at: int,
)
    requires
        vector_life(ids, chunks),
        0 <= at < ids.len(),
    ensures
        ids[at] == chunks[at].dom(),
    decreases at,
{
    if at > 0 {
        lemma_index_and_chunks_stay_together(ids, chunks, at - 1);
        assert(vector_step_at(ids, chunks, at - 1));
        assert(ids[at] =~= chunks[at].dom());
    }
}

} // verus!
