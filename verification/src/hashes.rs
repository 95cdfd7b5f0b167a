//! Content hashes and the comparison that drives a rebuild.
//!
//! A catalog records for each absolute path the hash of the content that was
//! indexed last. A rebuild compares the catalog with what is on disk now and
//! touches only what differs.

use crate::collections::{string_views, StringMap};
use crate::text::str_eq;
use sha2::Digest;
use vstd::prelude::*;

verus! {

/// The SHA-256 digest of the UTF-8 bytes of a text, as 64 lowercase
/// hexadecimal digits.
pub uninterp spec fn sha256_hex(content: Seq<char>) -> Seq<char>;

/// `sha2::Sha256::digest` on the bytes of `content`, written in lowercase
/// hexadecimal: the result is the digest of exactly this content.
#[verifier::external_body]
fn sha256_digest_hex(content: &str) -> (hex: String)
    ensures
        hex@ == sha256_hex(content@),
{
    format!("{:x}", sha2::Sha256::digest(content.as_bytes()))
}

/// The content hash of a file: the one criterion for whether it changed.
pub fn compute_content_hash(content: &str) -> (hash: String)
    ensures
        hash@ == sha256_hex(content@),
{
    sha256_digest_hex(content)
}

/// What a catalog records: for each path its hash.
pub open spec fn recorded(catalog: StringMap<String>) -> Map<Seq<char>, Seq<char>> {
    Map::new(|p: Seq<char>| catalog@.contains_key(p), |p: Seq<char>| catalog@[p]@)
}

/// `path` with content hash `hash` is new to the catalog or recorded with
/// another hash.
pub open spec fn differs(existing: Map<Seq<char>, Seq<char>>, path: Seq<char>, hash: Seq<char>) -> bool {
    !(existing.contains_key(path) && existing[path] == hash)
}

/// The first `count` of `paths` that are new or changed, in their order.
pub open spec fn changed_among(
    existing: Map<Seq<char>, Seq<char>>,
    current: Map<Seq<char>, Seq<char>>,
    paths: Seq<Seq<char>>,
    count: int,
) -> Seq<Seq<char>>
    decreases count,
{
    if count <= 0 {
        seq![]
    } else {
        let before = changed_among(existing, current, paths, count - 1);
        let path = paths[count - 1];
        if differs(existing, path, current[path]) {
            before.push(path)
        } else {
            before
        }
    }
}

/// The first `count` of `paths` that `current` does not hold, in their
/// order.
pub open spec fn missing_among(current: Set<Seq<char>>, paths: Seq<Seq<char>>, count: int) -> Seq<
    Seq<char>,
>
    decreases count,
{
    if count <= 0 {
        seq![]
    } else {
        let before = missing_among(current, paths, count - 1);
        let path = paths[count - 1];
        if !current.contains(path) {
            before.push(path)
        } else {
            before
        }
    }
}

/// The first `count` of `paths` that are recorded with another hash, in
/// their order.
pub open spec fn rewritten_among(
    existing: Map<Seq<char>, Seq<char>>,
    current: Map<Seq<char>, Seq<char>>,
    paths: Seq<Seq<char>>,
    count: int,
) -> Seq<Seq<char>>
    decreases count,
{
    if count <= 0 {
        seq![]
    } else {
        let before = rewritten_among(existing, current, paths, count - 1);
        let path = paths[count - 1];
        if existing.contains_key(path) && existing[path] != current[path] {
            before.push(path)
        } else {
            before
        }
    }
}

/// How the files on disk stand against a catalog.
pub struct Reconciliation {
    /// Paths that are new or whose content changed, in the order of the scan.
    pub to_index: Vec<String>,
    /// Paths that the catalog holds and the scan does not, in the order of
    /// the catalog.
    pub to_remove: Vec<String>,
    /// Paths whose content changed, in the order of the scan.
    pub rewritten: Vec<String>,
    /// For each path to index, its position in the scan.
    pub positions: Vec<usize>,
    /// Number of files whose content is what the catalog records.
    pub unchanged: usize,
}

impl Reconciliation {
    /// The reconciliation of the scan `current` against the catalog
    /// `existing`.
    pub open spec fn of(self, existing: StringMap<String>, current: StringMap<String>) -> bool {
        &&& string_views(self.to_index@) == changed_among(
            recorded(existing),
            recorded(current),
            current.key_views(),
            current.keys.len() as int,
        )
        &&& string_views(self.to_remove@) == missing_among(
            recorded(current).dom(),
            existing.key_views(),
            existing.keys.len() as int,
        )
        &&& string_views(self.rewritten@) == rewritten_among(
            recorded(existing),
            recorded(current),
            current.key_views(),
            current.keys.len() as int,
        )
        &&& self.unchanged == current.keys.len() - self.to_index.len()
        &&& self.positions.len() == self.to_index.len()
        &&& forall|k: int|
            0 <= k < self.positions.len() ==> (#[trigger] self.positions[k]) < current.keys.len()
                && current.key_views()[self.positions[k] as int] == self.to_index[k]@
    }

    /// Nothing is to be written.
    pub open spec fn is_noop(self) -> bool {
        self.to_index.len() == 0 && self.to_remove.len() == 0
    }

    /// Whether nothing is to be written.
    pub fn nothing_to_do(&self) -> (r: bool)
        ensures
            r == self.is_noop(),
    {
        self.to_index.len() == 0 && self.to_remove.len() == 0
    }
}

/// Compares the scan `current` with the catalog `existing`.
pub fn classify(existing: &StringMap<String>, current: &StringMap<String>) -> (r: Reconciliation)
    requires
        existing.wf(),
        current.wf(),
    ensures
        r.of(*existing, *current),
{
    let mut to_index: Vec<String> = Vec::new();
    let mut rewritten: Vec<String> = Vec::new();
    let mut positions: Vec<usize> = Vec::new();
    let mut unchanged: usize = 0;
    let mut i: usize = 0;
    assert(string_views(to_index@) =~= seq![]);
    assert(string_views(rewritten@) =~= seq![]);
    while i < current.keys.len()
        invariant
            i <= current.keys.len(),
            existing.wf(),
            current.wf(),
            string_views(to_index@) == changed_among(
                recorded(*existing),
                recorded(*current),
                current.key_views(),
                i as int,
            ),
            string_views(rewritten@) == rewritten_among(
                recorded(*existing),
                recorded(*current),
                current.key_views(),
                i as int,
            ),
            unchanged == i - to_index.len(),
            positions.len() == to_index.len(),
            forall|k: int|
                0 <= k < positions.len() ==> (#[trigger] positions[k]) < i && current.key_views()[positions[k] as int]
                    == to_index[k]@,
        decreases current.keys.len() - i,
    {
        let path = current.key_at(i);
        let hash = current.value_at(i);
        assert(recorded(*current)[path@] == hash@);
        let same = match existing.get(path.as_str()) {
            Some(known) => str_eq(known.as_str(), hash.as_str()),
            None => false,
        };
        if same {
            unchanged += 1;
        } else {
            let ghost before = to_index@;
            to_index.push(path.clone());
            positions.push(i);
            assert(string_views(to_index@) =~= string_views(before).push(path@));
            if existing.contains_key(path.as_str()) {
                let ghost before = rewritten@;
                rewritten.push(path.clone());
                assert(string_views(rewritten@) =~= string_views(before).push(path@));
            }
        }
        i += 1;
    }
    let mut to_remove: Vec<String> = Vec::new();
    let mut j: usize = 0;
    assert(string_views(to_remove@) =~= seq![]);
    while j < existing.keys.len()
        invariant
            j <= existing.keys.len(),
            existing.wf(),
            current.wf(),
            string_views(to_remove@) == missing_among(
                recorded(*current).dom(),
                existing.key_views(),
                j as int,
            ),
        decreases existing.keys.len() - j,
    {
        let path = existing.key_at(j);
        if !current.contains_key(path.as_str()) {
            let ghost before = to_remove@;
            to_remove.push(path.clone());
            assert(string_views(to_remove@) =~= string_views(before).push(path@));
        }
        j += 1;
    }
    Reconciliation { to_index, to_remove, rewritten, positions, unchanged }
}

// ---------------------------------------------------------------------------
// What a rebuild does to an index
// ---------------------------------------------------------------------------

proof fn lemma_changed_among(
    existing: Map<Seq<char>, Seq<char>>,
    current: Map<Seq<char>, Seq<char>>,
    paths: Seq<Seq<char>>,
    count: int,
    path: Seq<char>,
)
    requires
        0 <= count <= paths.len(),
    ensures
        changed_among(existing, current, paths, count).contains(path) <==> (exists|i: int|
            0 <= i < count && paths[i] == path) && differs(existing, path, current[path]),
    decreases count,
{
    if count > 0 {
        lemma_changed_among(existing, current, paths, count - 1, path);
        let before = changed_among(existing, current, paths, count - 1);
        let last = paths[count - 1];
        if differs(existing, last, current[last]) {
            assert(before.push(last).contains(path) <==> before.contains(path) || last == path) by {
                if before.contains(path) {
                    let k = choose|k: int| 0 <= k < before.len() && before[k] == path;
                    assert(before.push(last)[k] == path);
                }
                if last == path {
                    assert(before.push(last)[before.len() as int] == path);
                }
            }
        }
        if (exists|i: int| 0 <= i < count && paths[i] == path) {
            let i = choose|i: int| 0 <= i < count && paths[i] == path;
            if i < count - 1 {
                assert(exists|i: int| 0 <= i < count - 1 && paths[i] == path);
            }
        }
    }
}

proof fn lemma_missing_among(
    current: Set<Seq<char>>,
    paths: Seq<Seq<char>>,
    count: int,
    path: Seq<char>,
)
    requires
        0 <= count <= paths.len(),
    ensures
        missing_among(current, paths, count).contains(path) <==> (exists|i: int|
            0 <= i < count && paths[i] == path) && !current.contains(path),
    decreases count,
{
    if count > 0 {
        lemma_missing_among(current, paths, count - 1, path);
        let before = missing_among(current, paths, count - 1);
        let last = paths[count - 1];
        if !current.contains(last) {
            assert(before.push(last).contains(path) <==> before.contains(path) || last == path) by {
                if before.contains(path) {
                    let k = choose|k: int| 0 <= k < before.len() && before[k] == path;
                    assert(before.push(last)[k] == path);
                }
                if last == path {
                    assert(before.push(last)[before.len() as int] == path);
                }
            }
        }
        if (exists|i: int| 0 <= i < count && paths[i] == path) {
            let i = choose|i: int| 0 <= i < count && paths[i] == path;
            if i < count - 1 {
                assert(exists|i: int| 0 <= i < count - 1 && paths[i] == path);
            }
        }
    }
}

/// What a reconciliation says of a single path.
pub proof fn lemma_reconciliation(
    existing: StringMap<String>,
    current: StringMap<String>,
    r: Reconciliation,
    path: Seq<char>,
)
    requires
        existing.wf(),
        current.wf(),
        r.of(existing, current),
    ensures
        string_views(r.to_index@).contains(path) <==> recorded(current).contains_key(path) && differs(
            recorded(existing),
            path,
            recorded(current)[path],
        ),
        string_views(r.to_remove@).contains(path) <==> recorded(existing).contains_key(path)
            && !recorded(current).contains_key(path),
{
    lemma_changed_among(
        recorded(existing),
        recorded(current),
        current.key_views(),
        current.keys.len() as int,
        path,
    );
    lemma_missing_among(
        recorded(current).dom(),
        existing.key_views(),
        existing.keys.len() as int,
        path,
    );
    if recorded(current).contains_key(path) {
        current.lemma_key_position(path);
    }
    if recorded(existing).contains_key(path) {
        existing.lemma_key_position(path);
    }
    if (exists|i: int| 0 <= i < current.keys.len() && current.key_views()[i] == path) {
        let i = choose|i: int| 0 <= i < current.keys.len() && current.key_views()[i] == path;
        current.lemma_entry(i);
    }
    if (exists|i: int| 0 <= i < existing.keys.len() && existing.key_views()[i] == path) {
        let i = choose|i: int| 0 <= i < existing.keys.len() && existing.key_views()[i] == path;
        existing.lemma_entry(i);
    }
}

/// What a reconciliation of the scan `current` against a catalog that
/// records `existing` holds: the new or changed paths in the order of the
/// scan, each with its position in the scan; among them the changed ones;
/// and the paths that the catalog holds and the scan does not.
pub open spec fn reconciles(
    r: Reconciliation,
    existing: Map<Seq<char>, Seq<char>>,
    current: StringMap<String>,
) -> bool {
    &&& string_views(r.to_index@) == changed_among(
        existing,
        recorded(current),
        current.key_views(),
        current.keys.len() as int,
    )
    &&& string_views(r.to_remove@).to_set() == existing.dom().difference(recorded(current).dom())
    &&& string_views(r.rewritten@) == rewritten_among(
        existing,
        recorded(current),
        current.key_views(),
        current.keys.len() as int,
    )
    &&& r.unchanged == current.keys.len() - r.to_index.len()
    &&& r.positions.len() == r.to_index.len()
    &&& forall|k: int|
        0 <= k < r.positions.len() ==> (#[trigger] r.positions[k]) < current.keys.len()
            && current.key_views()[r.positions[k] as int] == r.to_index[k]@
}

/// What `classify` returns reconciles the scan with what the catalog
/// records.
pub proof fn lemma_classified_reconciles(
    existing: StringMap<String>,
    current: StringMap<String>,
    r: Reconciliation,
)
    requires
        existing.wf(),
        current.wf(),
        r.of(existing, current),
    ensures
        reconciles(r, recorded(existing), current),
{
    assert forall|p: Seq<char>|
        string_views(r.to_remove@).to_set().contains(p) <==> recorded(existing).dom().difference(
            recorded(current).dom(),
        ).contains(p) by {
        lemma_reconciliation(existing, current, r, p);
    }
    assert(string_views(r.to_remove@).to_set() =~= recorded(existing).dom().difference(
        recorded(current).dom(),
    ));
}

/// A path is to be indexed exactly if the scan holds it and the catalog
/// does not record it with the hash that the scan found.
pub proof fn lemma_to_index(
    r: Reconciliation,
    existing: Map<Seq<char>, Seq<char>>,
    current: StringMap<String>,
    path: Seq<char>,
)
    requires
        current.wf(),
        reconciles(r, existing, current),
    ensures
        string_views(r.to_index@).contains(path) <==> recorded(current).contains_key(path) && differs(
            existing,
            path,
            recorded(current)[path],
        ),
{
    lemma_changed_among(
        existing,
        recorded(current),
        current.key_views(),
        current.keys.len() as int,
        path,
    );
    if recorded(current).contains_key(path) {
        current.lemma_key_position(path);
    }
    if (exists|i: int| 0 <= i < current.keys.len() && current.key_views()[i] == path) {
        let i = choose|i: int| 0 <= i < current.keys.len() && current.key_views()[i] == path;
        current.lemma_entry(i);
    }
}

/// Every document of the index has its path in the catalog, with the hash
/// of the document.
pub open spec fn within_catalog(
    index: Map<Seq<char>, Seq<char>>,
    catalog: Map<Seq<char>, Seq<char>>,
) -> bool {
    forall|p: Seq<char>| #[trigger]
        index.contains_key(p) ==> catalog.contains_key(p) && catalog[p] == index[p]
}

/// The paths that a rebuild deletes from the index before it adds
/// documents: the removed ones and the new or changed ones.
pub open spec fn deleted_by(r: Reconciliation) -> Set<Seq<char>> {
    string_views(r.to_remove@).to_set() + string_views(r.to_index@).to_set()
}

/// The index, as a map from path to the hash of the document, after a
/// rebuild that deleted `deleted_by(r)` and then added the documents
/// `added`.
pub open spec fn index_after(
    index: Map<Seq<char>, Seq<char>>,
    r: Reconciliation,
    added: Map<Seq<char>, Seq<char>>,
) -> Map<Seq<char>, Seq<char>> {
    index.remove_keys(deleted_by(r)).union_prefer_right(added)
}

/// The catalog that a rebuild leaves: what was recorded, without the
/// removed paths, overwritten by what the scan found.
pub open spec fn merged(
    existing: Map<Seq<char>, Seq<char>>,
    r: Reconciliation,
    current: Map<Seq<char>, Seq<char>>,
) -> Map<Seq<char>, Seq<char>> {
    existing.remove_keys(string_views(r.to_remove@).to_set()).union_prefer_right(current)
}

/// The catalog that a rebuild leaves is the scan.
pub proof fn lemma_merged_is_scan(
    existing: Map<Seq<char>, Seq<char>>,
    current: StringMap<String>,
    r: Reconciliation,
)
    requires
        current.wf(),
        reconciles(r, existing, current),
    ensures
        merged(existing, r, recorded(current)) == recorded(current),
{
    let m = merged(existing, r, recorded(current));
    assert forall|p: Seq<char>| m.contains_key(p) implies recorded(current).contains_key(p) by {
        if !recorded(current).contains_key(p) {
            assert(existing.dom().difference(recorded(current).dom()).contains(p));
        }
    }
    assert(m =~= recorded(current));
}

/// A rebuild keeps the index within the catalog: if every document had its
/// path and hash in the catalog before, and every document that the rebuild
/// adds is one of the new or changed files with the hash that the scan
/// found, then every document has its path and hash in the catalog that the
/// rebuild leaves.
pub proof fn lemma_rebuild_keeps_index_within_catalog(
    index: Map<Seq<char>, Seq<char>>,
    existing: Map<Seq<char>, Seq<char>>,
    current: StringMap<String>,
    r: Reconciliation,
    added: Map<Seq<char>, Seq<char>>,
)
    requires
        current.wf(),
        reconciles(r, existing, current),
        within_catalog(index, existing),
        forall|p: Seq<char>| #[trigger]
            added.contains_key(p) ==> string_views(r.to_index@).contains(p) && added[p] == recorded(
                current,
            )[p],
    ensures
        within_catalog(index_after(index, r, added), merged(existing, r, recorded(current))),
{
    lemma_merged_is_scan(existing, current, r);
    let after = index_after(index, r, added);
    assert forall|p: Seq<char>| #[trigger] after.contains_key(p) implies recorded(
        current,
    ).contains_key(p) && recorded(current)[p] == after[p] by {
        lemma_to_index(r, existing, current, p);
        if !added.contains_key(p) {
            assert(index.contains_key(p));
            assert(!deleted_by(r).contains(p));
            assert(!string_views(r.to_remove@).to_set().contains(p));
            assert(!string_views(r.to_index@).to_set().contains(p));
            assert(!existing.dom().difference(recorded(current).dom()).contains(p));
        }
    }
}

/// After a rebuild that added a document for every new or changed file, the
/// indexed paths are the scanned paths: given that the index held the paths
/// of the catalog before.
pub proof fn lemma_rebuild_indexes_the_scan(
    index: Map<Seq<char>, Seq<char>>,
    existing: Map<Seq<char>, Seq<char>>,
    current: StringMap<String>,
    r: Reconciliation,
    added: Map<Seq<char>, Seq<char>>,
)
    requires
        current.wf(),
        reconciles(r, existing, current),
        index.dom() == existing.dom(),
        added.dom() == string_views(r.to_index@).to_set(),
    ensures
        index_after(index, r, added).dom() == recorded(current).dom(),
{
    let after = index_after(index, r, added);
    assert forall|p: Seq<char>| after.contains_key(p) <==> recorded(current).contains_key(p) by {
        lemma_to_index(r, existing, current, p);
        if recorded(current).contains_key(p) && !string_views(r.to_index@).contains(p) {
            assert(existing.contains_key(p));
            assert(index.dom().contains(p));
            assert(!existing.dom().difference(recorded(current).dom()).contains(p));
            assert(!string_views(r.to_remove@).to_set().contains(p));
            assert(!string_views(r.to_index@).to_set().contains(p));
            assert(index.remove_keys(deleted_by(r)).contains_key(p));
        }
        if after.contains_key(p) && !added.contains_key(p) {
            assert(index.contains_key(p));
            assert(!string_views(r.to_remove@).to_set().contains(p));
            assert(existing.dom().contains(p));
            assert(!existing.dom().difference(recorded(current).dom()).contains(p));
        }
        if added.contains_key(p) {
            assert(string_views(r.to_index@).to_set().contains(p));
        }
    }
    assert(after.dom() =~= recorded(current).dom());
}

/// A scan that finds what the catalog records leaves nothing to write, and
/// only such a scan.
pub proof fn lemma_noop_iff_same(
    existing: Map<Seq<char>, Seq<char>>,
    current: StringMap<String>,
    r: Reconciliation,
)
    requires
        current.wf(),
        reconciles(r, existing, current),
    ensures
        r.is_noop() <==> recorded(current) == existing,
        r.is_noop() ==> r.unchanged == current.keys.len(),
{
    if r.is_noop() {
        assert(string_views(r.to_remove@) =~= seq![]);
        assert(string_views(r.to_index@) =~= seq![]);
        assert forall|p: Seq<char>| recorded(current).contains_key(p) <==> existing.contains_key(
            p,
        ) by {
            lemma_to_index(r, existing, current, p);
            if !recorded(current).contains_key(p) && existing.contains_key(p) {
                assert(existing.dom().difference(recorded(current).dom()).contains(p));
                assert(string_views(r.to_remove@).to_set().contains(p));
            }
        }
        assert forall|p: Seq<char>| recorded(current).contains_key(p) implies recorded(current)[p]
            == existing[p] by {
            lemma_to_index(r, existing, current, p);
        }
        assert(recorded(current) =~= existing);
    }
    if recorded(current) == existing {
        if r.to_index.len() > 0 {
            let p = string_views(r.to_index@)[0];
            assert(string_views(r.to_index@).contains(p));
            lemma_to_index(r, existing, current, p);
        }
        if r.to_remove.len() > 0 {
            let p = string_views(r.to_remove@)[0];
            assert(string_views(r.to_remove@).contains(p));
            assert(string_views(r.to_remove@).to_set().contains(p));
        }
    }
}

// ---------------------------------------------------------------------------
// The life of an index
// ---------------------------------------------------------------------------

/// A full rebuild took the index from `index` to `next` and the catalog
/// from `catalog` to `then`: the scan `current` was reconciled with the
/// catalog as `r` says, the paths that `r` names were deleted, documents
/// were added for some of the new or changed files, each with the hash that
/// the scan found, and the scan became the catalog.
pub open spec fn rebuild_by(
    index: Map<Seq<char>, Seq<char>>,
    catalog: Map<Seq<char>, Seq<char>>,
    next: Map<Seq<char>, Seq<char>>,
    then: Map<Seq<char>, Seq<char>>,
    current: StringMap<String>,
    r: Reconciliation,
    added: Map<Seq<char>, Seq<char>>,
) -> bool {
    &&& current.wf()
    &&& reconciles(r, catalog, current)
    &&& forall|p: Seq<char>| #[trigger]
        added.contains_key(p) ==> string_views(r.to_index@).contains(p) && added[p] == recorded(
            current,
        )[p]
    &&& next == index_after(index, r, added)
    &&& then == recorded(current)
}

/// A single file was indexed anew: its document was replaced by one with
/// the hash `hash`, which was recorded.
pub open spec fn replaced_by(
    index: Map<Seq<char>, Seq<char>>,
    catalog: Map<Seq<char>, Seq<char>>,
    next: Map<Seq<char>, Seq<char>>,
    then: Map<Seq<char>, Seq<char>>,
    path: Seq<char>,
    hash: Seq<char>,
) -> bool {
    next == index.insert(path, hash) && then == catalog.insert(path, hash)
}

/// The document of a single file was deleted and its path taken out of the
/// catalog.
pub open spec fn dropped_by(
    index: Map<Seq<char>, Seq<char>>,
    catalog: Map<Seq<char>, Seq<char>>,
    next: Map<Seq<char>, Seq<char>>,
    then: Map<Seq<char>, Seq<char>>,
    path: Seq<char>,
) -> bool {
    next == index.remove(path) && then == catalog.remove(path)
}

/// One step in the life of an index and its catalog: nothing, a full
/// rebuild, or the update of a single file.
pub open spec fn index_step(
    index: Map<Seq<char>, Seq<char>>,
    catalog: Map<Seq<char>, Seq<char>>,
    next: Map<Seq<char>, Seq<char>>,
    then: Map<Seq<char>, Seq<char>>,
) -> bool {
    ||| next == index && then == catalog
    ||| exists|current: StringMap<String>, r: Reconciliation, added: Map<Seq<char>, Seq<char>>| #[trigger]
        rebuild_by(index, catalog, next, then, current, r, added)
    ||| exists|path: Seq<char>, hash: Seq<char>| #[trigger]
        replaced_by(index, catalog, next, then, path, hash)
    ||| exists|path: Seq<char>| #[trigger] dropped_by(index, catalog, next, then, path)
}

/// Step `at` of a life leads from its state `at` to its state `at + 1`.
pub open spec fn index_step_at(
    indexes: Seq<Map<Seq<char>, Seq<char>>>,
    catalogs: Seq<Map<Seq<char>, Seq<char>>>,
    at: int,
) -> bool {
    index_step(indexes[at], catalogs[at], indexes[at + 1], catalogs[at + 1])
}

/// The life of an index and its catalog: it starts with an index without
/// documents, and each state comes from the one before by one step.
pub open spec fn index_life(
    indexes: Seq<Map<Seq<char>, Seq<char>>>,
    catalogs: Seq<Map<Seq<char>, Seq<char>>>,
) -> bool {
    &&& indexes.len() == catalogs.len()
    &&& indexes.len() > 0
    &&& indexes[0] == Map::<Seq<char>, Seq<char>>::empty()
    &&& forall|i: int| 0 <= i < indexes.len() - 1 ==> #[trigger] index_step_at(indexes, catalogs, i)
}

/// At every time in the life of an index, every document has its path in
/// the catalog, with the hash of the document.
pub proof fn lemma_index_stays_within_catalog(
    indexes: Seq<Map<Seq<char>, Seq<char>>>,
    catalogs: Seq<Map<Seq<char>, Seq<char>>>,
    at: int,
)
    requires
        index_life(indexes, catalogs),
        0 <= at < indexes.len(),
    ensures
        within_catalog(indexes[at], catalogs[at]),
    decreases at,
{
    if at > 0 {
        lemma_index_stays_within_catalog(indexes, catalogs, at - 1);
        let index = indexes[at - 1];
        let catalog = catalogs[at - 1];
        let next = indexes[at];
        let then = catalogs[at];
        assert(index_step_at(indexes, catalogs, at - 1));
        assert(index_step(index, catalog, next, then));
        if next == index && then == catalog {
        } else if exists|current: StringMap<String>, r: Reconciliation, added: Map<Seq<char>, Seq<char>>| #[trigger]
            rebuild_by(index, catalog, next, then, current, r, added) {
            let (current, r, added) = choose|
                current: StringMap<String>,
                r: Reconciliation,
                added: Map<Seq<char>, Seq<char>>,
            | #[trigger] rebuild_by(index, catalog, next, then, current, r, added);
            lemma_rebuild_keeps_index_within_catalog(index, catalog, current, r, added);
            lemma_merged_is_scan(catalog, current, r);
        } else if exists|path: Seq<char>, hash: Seq<char>| #[trigger]
            replaced_by(index, catalog, next, then, path, hash) {
            let (path, hash) = choose|path: Seq<char>, hash: Seq<char>| #[trigger]
                replaced_by(index, catalog, next, then, path, hash);
            assert forall|p: Seq<char>| #[trigger] next.contains_key(p) implies then.contains_key(p)
                && then[p] == next[p] by {
                if p != path {
                    assert(index.contains_key(p));
                }
            }
        } else {
            let path = choose|path: Seq<char>| #[trigger] dropped_by(index, catalog, next, then, path);
            assert forall|p: Seq<char>| #[trigger] next.contains_key(p) implies then.contains_key(p)
                && then[p] == next[p] by {
                assert(index.contains_key(p));
            }
        }
    }
}

/// One step in which nothing was left out: a full rebuild that added a
/// document for every new or changed file, or the update of a single file.
pub open spec fn whole_step(
    index: Map<Seq<char>, Seq<char>>,
    catalog: Map<Seq<char>, Seq<char>>,
    next: Map<Seq<char>, Seq<char>>,
    then: Map<Seq<char>, Seq<char>>,
) -> bool {
    ||| next == index && then == catalog
    ||| exists|current: StringMap<String>, r: Reconciliation, added: Map<Seq<char>, Seq<char>>|
        #[trigger] rebuild_by(index, catalog, next, then, current, r, added) && added.dom()
            == string_views(r.to_index@).to_set()
    ||| exists|path: Seq<char>, hash: Seq<char>| #[trigger]
        replaced_by(index, catalog, next, then, path, hash)
    ||| exists|path: Seq<char>| #[trigger] dropped_by(index, catalog, next, then, path)
}

/// Step `at` of a life left nothing out.
pub open spec fn whole_step_at(
    indexes: Seq<Map<Seq<char>, Seq<char>>>,
    catalogs: Seq<Map<Seq<char>, Seq<char>>>,
    at: int,
) -> bool {
    whole_step(indexes[at], catalogs[at], indexes[at + 1], catalogs[at + 1])
}

/// A life that starts without documents and without recorded hashes, and
/// in which no step left anything out.
pub open spec fn whole_life(
    indexes: Seq<Map<Seq<char>, Seq<char>>>,
    catalogs: Seq<Map<Seq<char>, Seq<char>>>,
) -> bool {
    &&& indexes.len() == catalogs.len()
    &&& indexes.len() > 0
    &&& indexes[0] == Map::<Seq<char>, Seq<char>>::empty()
    &&& catalogs[0] == Map::<Seq<char>, Seq<char>>::empty()
    &&& forall|i: int| 0 <= i < indexes.len() - 1 ==> #[trigger] whole_step_at(indexes, catalogs, i)
}

/// At every time in a life in which nothing was left out, the indexed paths
/// are the recorded paths: after a full rebuild, the paths of the scan.
pub proof fn lemma_index_holds_the_catalog(
    indexes: Seq<Map<Seq<char>, Seq<char>>>,
    catalogs: Seq<Map<Seq<char>, Seq<char>>>,
    at: int,
)
    requires
        whole_life(indexes, catalogs),
        0 <= at < indexes.len(),
    ensures
        indexes[at].dom() == catalogs[at].dom(),
    decreases at,
{
    if at > 0 {
        lemma_index_holds_the_catalog(indexes, catalogs, at - 1);
        let index = indexes[at - 1];
        let catalog = catalogs[at - 1];
        let next = indexes[at];
        let then = catalogs[at];
        assert(whole_step_at(indexes, catalogs, at - 1));
        assert(whole_step(index, catalog, next, then));
        if next == index && then == catalog {
        } else if exists|current: StringMap<String>, r: Reconciliation, added: Map<Seq<char>, Seq<char>>|
            #[trigger] rebuild_by(index, catalog, next, then, current, r, added) && added.dom()
                == string_views(r.to_index@).to_set() {
            let (current, r, added) = choose|
                current: StringMap<String>,
                r: Reconciliation,
                added: Map<Seq<char>, Seq<char>>,
            |
                #[trigger] rebuild_by(index, catalog, next, then, current, r, added) && added.dom()
                    == string_views(r.to_index@).to_set();
            lemma_rebuild_indexes_the_scan(index, catalog, current, r, added);
        } else if exists|path: Seq<char>, hash: Seq<char>| #[trigger]
            replaced_by(index, catalog, next, then, path, hash) {
            let (path, hash) = choose|path: Seq<char>, hash: Seq<char>| #[trigger]
                replaced_by(index, catalog, next, then, path, hash);
            assert(next.dom() =~= then.dom());
        } else {
            let path = choose|path: Seq<char>| #[trigger] dropped_by(index, catalog, next, then, path);
            assert(next.dom() =~= then.dom());
        }
    } else {
        assert(indexes[0].dom() =~= catalogs[0].dom());
    }
}

} // verus!
