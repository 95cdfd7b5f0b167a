//! Small keyed collections with string keys.
//!
//! Entries are kept in the order in which their keys first came in, so that
//! walking a collection gives the same order every time. To find a key, only
//! the entries whose keys fall into the same bucket are gone through.

use vstd::prelude::*;
use vstd::string::StringExecFns;

verus! {

/// A map from strings to values. No key occurs twice.
pub struct StringMap<V> {
    pub keys: Vec<String>,
    pub values: Vec<V>,
    /// For each bucket, the positions of the keys that fall into it.
    pub buckets: Vec<Vec<usize>>,
}

/// Number of buckets of a map.
pub const BUCKETS: usize = 256;

/// The bucket that a key falls into.
pub open spec fn bucket_of(key: Seq<char>) -> int
    decreases key.len(),
{
    if key.len() == 0 {
        0
    } else {
        (bucket_of(key.drop_last()) * 31 + (key.last() as u32)) % 256
    }
}

proof fn lemma_bucket_range(key: Seq<char>)
    ensures
        0 <= bucket_of(key) < 256,
    decreases key.len(),
{
    if key.len() > 0 {
        lemma_bucket_range(key.drop_last());
    }
}

/// The buckets hold the positions of `keys`: every position in a bucket is
/// one of a key that falls into that bucket, and every position is in the
/// bucket of its key.
pub open spec fn indexes(buckets: Seq<Vec<usize>>, keys: Seq<Seq<char>>) -> bool {
    &&& buckets.len() == 256
    &&& forall|b: int, j: int|
        0 <= b < 256 && 0 <= j < buckets[b].len() ==> (#[trigger] buckets[b][j]) < keys.len()
            && bucket_of(keys[buckets[b][j] as int]) == b
    &&& forall|i: int|
        0 <= i < keys.len() ==> (#[trigger] buckets[bucket_of(keys[i])])@.contains(i as usize)
}

/// The bucket that a key falls into.
fn bucket(key: &str) -> (b: usize)
    ensures
        b == bucket_of(key@),
        b < 256,
{
    let mut h: u64 = 0;
    for c in it: key.chars()
        invariant
            h == bucket_of(it.seq().take(it.index() as int)),
            h < 256,
            it.seq() == key@,
    {
        assert(it.seq().take(it.index() + 1).drop_last() =~= it.seq().take(it.index() as int));
        let code: u64 = (c as u32) as u64;
        h = (h * 31 + code) % 256;
    }
    assert(key@.take(key@.len() as int) =~= key@);
    h as usize
}

/// Notes in the buckets that the key at position `at` falls into bucket
/// `b`.
fn note(buckets: &mut Vec<Vec<usize>>, b: usize, at: usize)
    requires
        b < old(buckets).len(),
    ensures
        final(buckets).len() == old(buckets).len(),
        final(buckets)[b as int]@ == old(buckets)[b as int]@.push(at),
        forall|other: int|
            0 <= other < old(buckets).len() && other != b ==> final(buckets)[other] == old(
                buckets,
            )[other],
{
    let mut list: Vec<usize> = Vec::new();
    let mut j: usize = 0;
    while j < buckets[b].len()
        invariant
            b < buckets.len(),
            *buckets == *old(buckets),
            j <= buckets[b as int].len(),
            list@ == buckets[b as int]@.take(j as int),
        decreases buckets[b as int].len() - j,
    {
        list.push(buckets[b][j]);
        assert(buckets[b as int]@.take(j + 1) =~= buckets[b as int]@.take(j as int).push(
            buckets[b as int]@[j as int],
        ));
        j += 1;
    }
    assert(buckets[b as int]@.take(j as int) =~= buckets[b as int]@);
    list.push(at);
    buckets.set(b, list);
}

/// The buckets for a list of keys.
fn build_index(keys: &Vec<String>) -> (buckets: Vec<Vec<usize>>)
    ensures
        indexes(buckets@, string_views(keys@)),
{
    let mut buckets: Vec<Vec<usize>> = Vec::new();
    let mut b: usize = 0;
    while b < BUCKETS
        invariant
            b <= 256,
            buckets.len() == b,
            forall|k: int| 0 <= k < b ==> (#[trigger] buckets[k]).len() == 0,
        decreases 256 - b,
    {
        buckets.push(Vec::new());
        b += 1;
    }
    let ghost all = string_views(keys@);
    let mut i: usize = 0;
    while i < keys.len()
        invariant
            i <= keys.len(),
            all == string_views(keys@),
            indexes(buckets@, all.take(i as int)),
        decreases keys.len() - i,
    {
        let ghost before = buckets@;
        let at = bucket(keys[i].as_str());
        assert(all[i as int] == keys@[i as int]@);
        note(&mut buckets, at, i);
        proof {
            let now = all.take(i + 1);
            let then = all.take(i as int);
            assert forall|b: int, j: int| 0 <= b < 256 && 0 <= j < buckets[b].len() implies (
            #[trigger] buckets[b][j]) < now.len() && bucket_of(now[buckets[b][j] as int]) == b by {
                if b == at && j == before[b].len() {
                } else {
                    assert(buckets[b][j] == before[b][j]);
                    assert(then[before[b][j] as int] == now[before[b][j] as int]);
                }
            }
            assert forall|k: int| 0 <= k < now.len() implies (#[trigger] buckets[bucket_of(
                now[k],
            )])@.contains(k as usize) by {
                lemma_bucket_range(now[k]);
                let target = bucket_of(now[k]);
                if k < i {
                    assert(then[k] == now[k]);
                    assert(before[target]@.contains(k as usize));
                    let j = choose|j: int| 0 <= j < before[target].len() && before[target][j] == k;
                    assert(buckets[target][j] == k);
                } else {
                    assert(buckets[target][before[target].len() as int] == k);
                }
            }
        }
        i += 1;
    }
    assert(all.take(i as int) =~= all);
    buckets
}

/// The texts of a list of strings.
pub open spec fn string_views(v: Seq<String>) -> Seq<Seq<char>> {
    v.map_values(|s: String| s@)
}

proof fn lemma_index_of_unique(keys: Seq<Seq<char>>, i: int)
    requires
        keys.no_duplicates(),
        0 <= i < keys.len(),
    ensures
        keys.index_of(keys[i]) == i,
        keys.contains(keys[i]),
{
    assert(keys.contains(keys[i]));
}

/// The set of a list with one more element is the set of the list with that
/// element.
pub proof fn lemma_push_to_set(list: Seq<Seq<char>>, last: Seq<char>)
    ensures
        list.push(last).to_set() == list.to_set().insert(last),
{
    assert forall|x: Seq<char>| list.push(last).to_set().contains(x) <==> list.to_set().insert(
        last,
    ).contains(x) by {
        if list.push(last).contains(x) {
            let i = choose|i: int| 0 <= i < list.push(last).len() && list.push(last)[i] == x;
            if i < list.len() {
                assert(list[i] == x);
            }
        }
        if list.contains(x) {
            let i = choose|i: int| 0 <= i < list.len() && list[i] == x;
            assert(list.push(last)[i] == x);
        }
        if x == last {
            assert(list.push(last)[list.len() as int] == x);
        }
    }
    assert(list.push(last).to_set() =~= list.to_set().insert(last));
}

impl<V> View for StringMap<V> {
    type V = Map<Seq<char>, V>;

    open spec fn view(&self) -> Map<Seq<char>, V> {
        Map::new(
            |k: Seq<char>| self.key_views().contains(k),
            |k: Seq<char>| self.values[self.key_views().index_of(k)],
        )
    }
}

impl<V> StringMap<V> {
    /// The keys, in the order in which they are held.
    pub open spec fn key_views(&self) -> Seq<Seq<char>> {
        string_views(self.keys@)
    }

    /// Every key has its value, no key occurs twice, and the buckets hold
    /// the positions of the keys.
    pub open spec fn wf(&self) -> bool {
        &&& self.keys.len() == self.values.len()
        &&& self.key_views().no_duplicates()
        &&& self.indexed()
    }

    /// The buckets hold the positions of the keys.
    pub closed spec fn indexed(&self) -> bool {
        indexes(self.buckets@, string_views(self.keys@))
    }

    /// The entry at position `i` is the value of the key at position `i`.
    pub proof fn lemma_entry(&self, i: int)
        requires
            self.wf(),
            0 <= i < self.keys.len(),
        ensures
            self@.contains_key(self.key_views()[i]),
            self@[self.key_views()[i]] == self.values[i],
    {
        lemma_index_of_unique(self.key_views(), i);
    }

    /// Every key of the map is held at some position.
    pub proof fn lemma_key_position(&self, key: Seq<char>)
        requires
            self.wf(),
            self@.contains_key(key),
        ensures
            0 <= self.key_views().index_of(key) < self.keys.len(),
            self.key_views()[self.key_views().index_of(key)] == key,
            self@[key] == self.values[self.key_views().index_of(key)],
    {
    }

    /// The map is finite and has as many keys as entries.
    pub proof fn lemma_len(&self)
        requires
            self.wf(),
        ensures
            self@.dom().finite(),
            self@.dom().len() == self.keys.len(),
    {
        assert(self@.dom() =~= self.key_views().to_set());
        self.key_views().unique_seq_to_set();
    }

    /// A map that holds nothing.
    pub fn new() -> (m: Self)
        ensures
            m.wf(),
            m@ == Map::<Seq<char>, V>::empty(),
            m.keys.len() == 0,
    {
        let keys: Vec<String> = Vec::new();
        let buckets = build_index(&keys);
        let m = StringMap { keys, values: Vec::new(), buckets };
        assert(m@ =~= Map::<Seq<char>, V>::empty());
        m
    }

    /// Number of keys.
    pub fn len(&self) -> (n: usize)
        requires
            self.wf(),
        ensures
            n == self.keys.len(),
            n == self@.dom().len(),
    {
        proof {
            self.lemma_len();
        }
        self.keys.len()
    }

    /// Position of `key`, if the map holds it.
    pub fn position(&self, key: &str) -> (r: Option<usize>)
        requires
            self.wf(),
        ensures
            match r {
                Some(i) => i < self.keys.len() && self.key_views()[i as int] == key@
                    && self@.contains_key(key@) && self@[key@] == self.values[i as int],
                None => !self@.contains_key(key@),
            },
    {
        let b = bucket(key);
        let wanted = String::from_str(key);
        let mut j: usize = 0;
        while j < self.buckets[b].len()
            invariant
                self.wf(),
                wanted@ == key@,
                b == bucket_of(key@),
                b < self.buckets.len(),
                j <= self.buckets[b as int].len(),
                forall|k: int|
                    0 <= k < j ==> self.key_views()[(#[trigger] self.buckets[b as int][k]) as int]
                        != key@,
            decreases self.buckets[b as int].len() - j,
        {
            let i = self.buckets[b][j];
            assert(i < self.keys.len());
            if self.keys[i] == wanted {
                proof {
                    self.lemma_entry(i as int);
                }
                return Some(i);
            }
            j += 1;
        }
        proof {
            assert forall|i: int| 0 <= i < self.keys.len() implies self.key_views()[i] != key@ by {
                if self.key_views()[i] == key@ {
                    assert(self.buckets[bucket_of(self.key_views()[i])]@.contains(i as usize));
                    let k = choose|k: int|
                        0 <= k < self.buckets[b as int].len() && self.buckets[b as int][k] == i;
                    assert(self.key_views()[self.buckets[b as int][k] as int] != key@);
                }
            }
        }
        None
    }

    /// Whether the map holds `key`.
    pub fn contains_key(&self, key: &str) -> (r: bool)
        requires
            self.wf(),
        ensures
            r == self@.contains_key(key@),
    {
        self.position(key).is_some()
    }

    /// The value of `key`, if the map holds it.
    pub fn get(&self, key: &str) -> (r: Option<&V>)
        requires
            self.wf(),
        ensures
            match r {
                Some(v) => self@.contains_key(key@) && *v == self@[key@],
                None => !self@.contains_key(key@),
            },
    {
        match self.position(key) {
            Some(i) => Some(&self.values[i]),
            None => None,
        }
    }

    /// The key at position `i`.
    pub fn key_at(&self, i: usize) -> (k: &String)
        requires
            self.wf(),
            i < self.keys.len(),
        ensures
            k@ == self.key_views()[i as int],
            self@.contains_key(k@),
    {
        proof {
            self.lemma_entry(i as int);
        }
        &self.keys[i]
    }

    /// The value at position `i`.
    pub fn value_at(&self, i: usize) -> (v: &V)
        requires
            self.wf(),
            i < self.keys.len(),
        ensures
            *v == self.values[i as int],
            *v == self@[self.key_views()[i as int]],
    {
        proof {
            self.lemma_entry(i as int);
        }
        &self.values[i]
    }

    /// Sets the value of `key`; returns the value it had.
    pub fn insert(&mut self, key: String, value: V) -> (previous: Option<V>)
        requires
            old(self).wf(),
        ensures
            final(self).wf(),
            final(self)@ == old(self)@.insert(key@, value),
            previous == (if old(self)@.contains_key(key@) {
                Some(old(self)@[key@])
            } else {
                None
            }),
            old(self)@.contains_key(key@) ==> final(self).key_views() == old(self).key_views(),
            !old(self)@.contains_key(key@) ==> final(self).key_views() == old(self).key_views().push(
                key@,
            ),
    {
        let ghost before = *self;
        let b = bucket(key.as_str());
        match self.position(key.as_str()) {
            Some(i) => {
                self.values.push(value);
                let previous = self.values.swap_remove(i);
                proof {
                    assert(self.key_views() == before.key_views());
                    assert forall|k: Seq<char>| #[trigger]
                        self@.contains_key(k) implies self@[k] == before@.insert(key@, value)[k] by {
                        let j = self.key_views().index_of(k);
                        lemma_index_of_unique(self.key_views(), i as int);
                    }
                    assert(self@ =~= before@.insert(key@, value));
                }
                Some(previous)
            },
            None => {
                let at = self.keys.len();
                self.keys.push(key);
                self.values.push(value);
                note(&mut self.buckets, b, at);
                proof {
                    assert(self.key_views() =~= before.key_views().push(key@));
                    let now = self.key_views();
                    let then = before.key_views();
                    assert forall|c: int, j: int|
                        0 <= c < 256 && 0 <= j < self.buckets[c].len() implies (
                    #[trigger] self.buckets[c][j]) < now.len() && bucket_of(
                        now[self.buckets[c][j] as int],
                    ) == c by {
                        if c == b && j == before.buckets[c].len() {
                        } else {
                            assert(self.buckets[c][j] == before.buckets[c][j]);
                            assert(then[before.buckets[c][j] as int] == now[before.buckets[c][j] as int]);
                        }
                    }
                    assert forall|k: int| 0 <= k < now.len() implies (#[trigger] self.buckets[bucket_of(
                        now[k],
                    )])@.contains(k as usize) by {
                        lemma_bucket_range(now[k]);
                        let target = bucket_of(now[k]);
                        if k < at {
                            assert(then[k] == now[k]);
                            assert(before.buckets[bucket_of(then[k])]@.contains(k as usize));
                            let j = choose|j: int|
                                0 <= j < before.buckets[target].len() && before.buckets[target][j]
                                    == k;
                            assert(self.buckets[target][j] == k);
                        } else {
                            assert(self.buckets[target][before.buckets[target].len() as int] == k);
                        }
                    }
                    assert forall|a: int, b: int|
                        0 <= a < self.key_views().len() && 0 <= b < self.key_views().len() && a
                            != b implies self.key_views()[a] != self.key_views()[b] by {
                        if a < before.keys.len() {
                            assert(before.key_views().contains(before.key_views()[a]));
                        }
                        if b < before.keys.len() {
                            assert(before.key_views().contains(before.key_views()[b]));
                        }
                    }
                    assert forall|k: Seq<char>| #[trigger]
                        before@.insert(key@, value).contains_key(k) implies self@.contains_key(k)
                        && self@[k] == before@.insert(key@, value)[k] by {
                        if k == key@ {
                            assert(self.key_views()[before.keys.len() as int] == key@);
                            lemma_index_of_unique(self.key_views(), before.keys.len() as int);
                        } else {
                            let j = before.key_views().index_of(k);
                            assert(self.key_views()[j] == k);
                            lemma_index_of_unique(self.key_views(), j);
                        }
                    }
                    assert forall|k: Seq<char>| #[trigger]
                        self@.contains_key(k) implies before@.insert(key@, value).contains_key(k) by {
                        let j = self.key_views().index_of(k);
                        if j < before.keys.len() {
                            assert(before.key_views()[j] == k);
                        }
                    }
                    assert(self@ =~= before@.insert(key@, value));
                }
                None
            },
        }
    }

    /// Takes `key` out; returns the value it had.
    pub fn remove(&mut self, key: &str) -> (previous: Option<V>)
        requires
            old(self).wf(),
        ensures
            final(self).wf(),
            final(self)@ == old(self)@.remove(key@),
            previous == (if old(self)@.contains_key(key@) {
                Some(old(self)@[key@])
            } else {
                None
            }),
            !old(self)@.contains_key(key@) ==> *final(self) == *old(self),
    {
        let ghost before = *self;
        match self.position(key) {
            Some(i) => {
                self.keys.remove(i);
                let previous = self.values.remove(i);
                self.buckets = build_index(&self.keys);
                proof {
                    assert(self.key_views() =~= before.key_views().remove(i as int));
                    assert forall|a: int, b: int|
                        0 <= a < self.key_views().len() && 0 <= b < self.key_views().len() && a
                            != b implies self.key_views()[a] != self.key_views()[b] by {
                        let a0 = if a < i { a } else { a + 1 };
                        let b0 = if b < i { b } else { b + 1 };
                        assert(self.key_views()[a] == before.key_views()[a0]);
                        assert(self.key_views()[b] == before.key_views()[b0]);
                    }
                    assert forall|k: Seq<char>| #[trigger]
                        before@.remove(key@).contains_key(k) implies self@.contains_key(k) && self@[k]
                        == before@[k] by {
                        let j = before.key_views().index_of(k);
                        let j1 = if j < i { j } else { j - 1 };
                        assert(self.key_views()[j1] == k);
                        lemma_index_of_unique(self.key_views(), j1);
                    }
                    assert forall|k: Seq<char>| #[trigger]
                        self@.contains_key(k) implies before@.remove(key@).contains_key(k) by {
                        let j = self.key_views().index_of(k);
                        let j0 = if j < i { j } else { j + 1 };
                        assert(before.key_views()[j0] == k);
                        lemma_index_of_unique(before.key_views(), j0);
                        lemma_index_of_unique(before.key_views(), i as int);
                    }
                    assert(self@ =~= before@.remove(key@));
                }
                Some(previous)
            },
            None => {
                assert(self@ =~= before@.remove(key@));
                None
            },
        }
    }
}

/// A copy of a map from strings to strings.
pub fn copy_catalog(catalog: &StringMap<String>) -> (copy: StringMap<String>)
    requires
        catalog.wf(),
    ensures
        copy.wf(),
        copy.keys@ == catalog.keys@,
        copy.values@ == catalog.values@,
        copy@ == catalog@,
{
    let mut keys: Vec<String> = Vec::new();
    let mut values: Vec<String> = Vec::new();
    let mut i: usize = 0;
    while i < catalog.keys.len()
        invariant
            i <= catalog.keys.len(),
            catalog.wf(),
            keys@ == catalog.keys@.take(i as int),
            values@ == catalog.values@.take(i as int),
        decreases catalog.keys.len() - i,
    {
        keys.push(catalog.keys[i].clone());
        values.push(catalog.values[i].clone());
        assert(catalog.keys@.take(i + 1) =~= catalog.keys@.take(i as int).push(catalog.keys@[i as int]));
        assert(catalog.values@.take(i + 1) =~= catalog.values@.take(i as int).push(
            catalog.values@[i as int],
        ));
        i += 1;
    }
    assert(catalog.keys@.take(i as int) =~= catalog.keys@);
    assert(catalog.values@.take(i as int) =~= catalog.values@);
    let buckets = build_index(&keys);
    let copy = StringMap { keys, values, buckets };
    assert(copy@ =~= catalog@);
    copy
}

/// A copy of a list of texts.
pub fn copy_strings(list: &Vec<String>) -> (copy: Vec<String>)
    ensures
        copy@ == list@,
{
    let mut copy: Vec<String> = Vec::new();
    let mut i: usize = 0;
    while i < list.len()
        invariant
            i <= list.len(),
            copy@ == list@.take(i as int),
        decreases list.len() - i,
    {
        copy.push(list[i].clone());
        assert(list@.take(i + 1) =~= list@.take(i as int).push(list@[i as int]));
        i += 1;
    }
    assert(list@.take(i as int) =~= list@);
    copy
}

} // verus!
