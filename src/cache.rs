//! A bounded cache of confirmed slots, backed by `scc`'s concurrent hash map
//! and a first-in-first-out queue of keys that decides which entry to evict.

use vstd::prelude::*;

verus! {

#[verifier::external_type_specification]
#[verifier::external_body]
#[verifier::reject_recursive_types(K)]
#[verifier::reject_recursive_types(V)]
#[verifier::reject_recursive_types(H)]
pub struct ExSccHashMap<K, V, H: core::hash::BuildHasher>(scc::HashMap<K, V, H>);

#[verifier::external_type_specification]
#[verifier::external_body]
#[verifier::reject_recursive_types(T)]
pub struct ExSccQueue<T>(scc::Queue<T>);

/// The entries that an `scc` hash map holds.
pub uninterp spec fn map_contents(m: scc::HashMap<u64, u64>) -> Map<u64, u64>;

/// The values that an `scc` queue holds, oldest first.
pub uninterp spec fn queue_contents(q: scc::Queue<u64>) -> Seq<u64>;

/// Relies on `scc::HashMap::new`: the new map is empty.
#[verifier::external_body]
fn map_new() -> (r: scc::HashMap<u64, u64>)
    ensures
        map_contents(r).dom() == Set::<u64>::empty(),
{
    scc::HashMap::new()
}

/// Relies on `scc::HashMap::contains`: whether the key has an entry.
#[verifier::external_body]
fn map_contains(m: &scc::HashMap<u64, u64>, key: u64) -> (r: bool)
    ensures
        r == map_contents(*m).contains_key(key),
{
    m.contains(&key)
}

/// Relies on `scc::HashMap::read`: the value stored under the key, if any.
#[verifier::external_body]
fn map_read(m: &scc::HashMap<u64, u64>, key: u64) -> (r: Option<u64>)
    ensures
        r == (if map_contents(*m).contains_key(key) {
            Some(map_contents(*m)[key])
        } else {
            None::<u64>
        }),
{
    m.read(&key, |_, v| *v)
}

/// Relies on `scc::HashMap::insert`: a new key is added; an existing key is
/// refused, with the pair handed back and the map unchanged.
#[verifier::external_body]
fn map_insert(m: &mut scc::HashMap<u64, u64>, key: u64, value: u64) -> (r: Result<(), (u64, u64)>)
    ensures
        map_contents(*old(m)).contains_key(key) ==> r is Err && r->Err_0 == (key, value)
            && map_contents(*final(m)) == map_contents(*old(m)),
        !map_contents(*old(m)).contains_key(key) ==> r is Ok
            && map_contents(*final(m)) == map_contents(*old(m)).insert(key, value),
{
    m.insert(key, value)
}

/// Relies on `scc::HashMap::upsert`: the key maps to the value afterwards, and
/// the value it had before, if any, is returned.
#[verifier::external_body]
fn map_upsert(m: &mut scc::HashMap<u64, u64>, key: u64, value: u64) -> (r: Option<u64>)
    ensures
        map_contents(*final(m)) == map_contents(*old(m)).insert(key, value),
        r == (if map_contents(*old(m)).contains_key(key) {
            Some(map_contents(*old(m))[key])
        } else {
            None::<u64>
        }),
{
    m.upsert(key, value)
}

/// Relies on `scc::HashMap::remove`: the entry of the key is taken out and
/// returned, or `None` when there is none.
#[verifier::external_body]
fn map_remove(m: &mut scc::HashMap<u64, u64>, key: u64) -> (r: Option<(u64, u64)>)
    ensures
        map_contents(*final(m)) == map_contents(*old(m)).remove(key),
        r == (if map_contents(*old(m)).contains_key(key) {
            Some((key, map_contents(*old(m))[key]))
        } else {
            None::<(u64, u64)>
        }),
{
    m.remove(&key)
}

/// Relies on `scc::HashMap::scan`: with no concurrent writer, every entry is
/// visited exactly once, so each key is collected once.
#[verifier::external_body]
fn map_keys(m: &scc::HashMap<u64, u64>) -> (r: Vec<u64>)
    ensures
        r@.to_set() == map_contents(*m).dom(),
        r@.no_duplicates(),
{
    let mut keys = Vec::new();
    m.scan(|k, _| keys.push(*k));
    keys
}

/// Relies on `scc::Queue::default`: the new queue is empty.
#[verifier::external_body]
fn queue_new() -> (r: scc::Queue<u64>)
    ensures
        queue_contents(r).len() == 0,
{
    scc::Queue::default()
}

/// Relies on `scc::Queue::push`: the value becomes the newest entry.
#[verifier::external_body]
fn queue_push(q: &mut scc::Queue<u64>, value: u64)
    ensures
        queue_contents(*final(q)) == queue_contents(*old(q)).push(value),
{
    q.push(value);
}

/// Relies on `scc::Queue::pop`: the oldest entry is taken out and returned, or
/// `None` when the queue is empty.
#[verifier::external_body]
fn queue_pop(q: &mut scc::Queue<u64>) -> (r: Option<u64>)
    ensures
        queue_contents(*old(q)).len() == 0 ==> r is None
            && queue_contents(*final(q)) == queue_contents(*old(q)),
        queue_contents(*old(q)).len() > 0 ==> r == Some(queue_contents(*old(q))[0])
            && queue_contents(*final(q)) == queue_contents(*old(q)).drop_first(),
{
    q.pop().map(|e| **e)
}

/// Relies on `scc::Queue::len`: the number of entries in the queue.
#[verifier::external_body]
fn queue_len(q: &scc::Queue<u64>) -> (r: usize)
    ensures
        r == queue_contents(*q).len(),
{
    q.len()
}

/// What a cache holds: its keys in the order they were first inserted, the
/// entries, and the capacity it was made with.
pub struct CacheModel {
    pub order: Seq<u64>,
    pub entries: Map<u64, u64>,
    pub capacity: nat,
}

impl CacheModel {
    /// The empty cache of the given capacity.
    pub open spec fn empty(capacity: nat) -> CacheModel {
        CacheModel { order: Seq::empty(), entries: Map::empty(), capacity }
    }

    /// The key order lists each present key exactly once, and the entries fit.
    pub open spec fn wf(self) -> bool {
        &&& self.order.no_duplicates()
        &&& self.order.to_set() == self.entries.dom()
        &&& self.order.len() <= self.capacity
    }

    /// The number of entries.
    pub open spec fn len(self) -> nat {
        self.order.len()
    }

    /// Whether inserting `key` would first evict the oldest entry: the key is
    /// new and the cache is full.
    pub open spec fn evicts_on(self, key: u64) -> bool {
        &&& !self.entries.contains_key(key)
        &&& self.order.len() >= self.capacity
        &&& self.order.len() > 0
    }

    /// The cache after `insert(key, value)`: a cache of capacity zero stores
    /// nothing; otherwise an existing key gets the new value, and a new key is
    /// appended, after the oldest key is evicted when the cache is full.
    pub open spec fn insert(self, key: u64, value: u64) -> CacheModel {
        if self.capacity == 0 {
            self
        } else if self.entries.contains_key(key) {
            CacheModel { entries: self.entries.insert(key, value), ..self }
        } else if self.evicts_on(key) {
            CacheModel {
                order: self.order.drop_first().push(key),
                entries: self.entries.remove(self.order[0]).insert(key, value),
                ..self
            }
        } else {
            CacheModel {
                order: self.order.push(key),
                entries: self.entries.insert(key, value),
                ..self
            }
        }
    }

    /// The cache after inserting each pair of `items` in turn.
    pub open spec fn insert_all(self, items: Seq<(u64, u64)>) -> CacheModel
        decreases items.len(),
    {
        if items.len() == 0 {
            self
        } else {
            self.insert_all(items.drop_last()).insert(items.last().0, items.last().1)
        }
    }
}

/// A bounded map from slot to slot. When a new key arrives at a full cache,
/// the entry whose key was inserted first is evicted.
pub struct Cache {
    inner: scc::HashMap<u64, u64>,
    key_order: scc::Queue<u64>,
    max_size: usize,
}

impl View for Cache {
    type V = CacheModel;

    closed spec fn view(&self) -> CacheModel {
        CacheModel {
            order: queue_contents(self.key_order),
            entries: map_contents(self.inner),
            capacity: self.max_size as nat,
        }
    }
}

impl Cache {
    /// The cache is internally consistent.
    pub open spec fn wf(&self) -> bool {
        self@.wf()
    }

    /// An empty cache that holds at most `max_size` entries.
    pub fn new(max_size: usize) -> (r: Cache)
        ensures
            r.wf(),
            r@ == CacheModel::empty(max_size as nat),
    {
        let r = Cache { inner: map_new(), key_order: queue_new(), max_size };
        proof {
            assert(r@.entries =~= Map::empty());
            assert(r@.order =~= Seq::empty());
            assert(r@.order.to_set() =~= Set::empty());
        }
        r
    }

    /// The number of entries, counted on the key order, which lists each
    /// present key once.
    pub fn len(&self) -> (r: usize)
        requires
            self.wf(),
        ensures
            r == self@.len(),
    {
        queue_len(&self.key_order)
    }

    /// Whether the cache holds as many entries as its capacity, or more.
    pub fn is_max_size(&self) -> (r: bool)
        requires
            self.wf(),
        ensures
            r == (self@.len() >= self@.capacity),
    {
        queue_len(&self.key_order) >= self.max_size
    }

    /// Whether `key` has an entry.
    pub fn contains(&self, key: &u64) -> (r: bool)
        ensures
            r == self@.entries.contains_key(*key),
    {
        map_contains(&self.inner, *key)
    }

    /// The value stored under `key`, if any.
    pub fn get(&self, key: &u64) -> (r: Option<u64>)
        ensures
            r == (if self@.entries.contains_key(*key) {
                Some(self@.entries[*key])
            } else {
                None::<u64>
            }),
    {
        map_read(&self.inner, *key)
    }

    /// Every key present, each once, in no particular order.
    pub fn keys(&self) -> (r: Vec<u64>)
        ensures
            r@.to_set() == self@.entries.dom(),
            r@.no_duplicates(),
    {
        map_keys(&self.inner)
    }

    /// Stores `value` under `key`. An existing key gets the new value and the
    /// size stays; a new key arriving at a full cache first evicts the entry
    /// whose key was inserted first. A cache of capacity zero has no room for
    /// any entry: it refuses the insert and hands the pair back.
    pub fn insert(&mut self, key: u64, value: u64) -> (r: Result<(), (u64, u64)>)
        requires
            old(self).wf(),
        ensures
            final(self).wf(),
            final(self)@ == old(self)@.insert(key, value),
            r is Ok <==> old(self)@.capacity > 0,
            r is Err ==> r->Err_0 == (key, value),
    {
        let ghost pre = self@;
        if self.max_size == 0 {
            return Err((key, value));
        }
        if map_contains(&self.inner, key) {
            let _ = map_upsert(&mut self.inner, key, value);
            proof {
                lemma_insert_preserves_wf(pre, key, value);
            }
            return Ok(());
        }
        if queue_len(&self.key_order) >= self.max_size {
            if let Some(evict) = queue_pop(&mut self.key_order) {
                let _ = map_remove(&mut self.inner, evict);
            }
        }
        queue_push(&mut self.key_order, key);
        let r = map_insert(&mut self.inner, key, value);
        proof {
            lemma_insert_preserves_wf(pre, key, value);
        }
        r
    }
}

/// A single insert keeps a well-formed cache well-formed.
pub proof fn lemma_insert_preserves_wf(m: CacheModel, key: u64, value: u64)
    requires
        m.wf(),
    ensures
        m.insert(key, value).wf(),
{
    let n = m.insert(key, value);
    if m.capacity == 0 {
    } else if m.entries.contains_key(key) {
        assert(n.entries.dom() =~= m.entries.dom());
    } else if m.evicts_on(key) {
        let d = m.order.drop_first();
        assert(m.order.contains(m.order[0]));
        assert forall|x: u64| d.contains(x) implies x != m.order[0] && m.order.contains(x) by {
            let i = choose|i: int| 0 <= i < d.len() && d[i] == x;
            assert(m.order[i + 1] == x);
        }
        assert(!m.order.contains(key));
        assert(n.order.to_set() =~= n.entries.dom()) by {
            assert forall|x: u64| n.order.contains(x) <==> n.entries.dom().contains(x) by {
                if x != key && x != m.order[0] && m.order.contains(x) {
                    let j = choose|j: int| 0 <= j < m.order.len() && m.order[j] == x;
                    assert(j != 0);
                    assert(d[j - 1] == x);
                    assert(n.order[j - 1] == x);
                }
                if x == key {
                    assert(n.order[n.order.len() - 1] == key);
                }
            }
        }
        assert(n.order.no_duplicates());
    } else {
        assert(!m.order.contains(key));
        assert(n.order.to_set() =~= n.entries.dom()) by {
            assert forall|x: u64| n.order.contains(x) <==> n.entries.dom().contains(x) by {
                if m.order.contains(x) {
                    let j = choose|j: int| 0 <= j < m.order.len() && m.order[j] == x;
                    assert(n.order[j] == x);
                }
                if x == key {
                    assert(n.order[n.order.len() - 1] == key);
                }
            }
        }
    }
}

/// The keys of a sequence of pairs, in order.
pub open spec fn keys_of(items: Seq<(u64, u64)>) -> Seq<u64> {
    items.map_values(|p: (u64, u64)| p.0)
}

/// No key occurs twice among the pairs.
pub open spec fn distinct_keys(items: Seq<(u64, u64)>) -> bool {
    forall|i: int, j: int| 0 <= i < j < items.len() ==> items[i].0 != items[j].0
}

/// After any sequence of inserts into a well-formed cache, the cache is well-formed and holds at most `capacity` entries.
/// Every prefix of a sequence is a sequence too, so this holds after every
/// single insert.
pub proof fn lemma_len_within_capacity(m: CacheModel, items: Seq<(u64, u64)>)
    requires
        m.wf(),
    ensures
        m.insert_all(items).wf(),
        m.insert_all(items).capacity == m.capacity,
        m.insert_all(items).len() <= m.capacity,
    decreases items.len(),
{
    if items.len() > 0 {
        lemma_len_within_capacity(m, items.drop_last());
        lemma_insert_preserves_wf(m.insert_all(items.drop_last()), items.last().0, items.last().1);
    }
}

/// Inserting a key that is already present replaces its value and leaves the
/// number of entries unchanged.
pub proof fn lemma_reinsert_updates_value(m: CacheModel, key: u64, value: u64)
    requires
        m.wf(),
        m.entries.contains_key(key),
    ensures
        m.insert(key, value).entries == m.entries.insert(key, value),
        m.insert(key, value).entries[key] == value,
        m.insert(key, value).len() == m.len(),
{
}

/// Inserting at most `capacity` distinct keys into an empty cache evicts
/// nothing: the keys stand in the order of insertion.
proof fn lemma_fill_without_eviction(capacity: nat, items: Seq<(u64, u64)>)
    requires
        items.len() <= capacity,
        distinct_keys(items),
    ensures
        CacheModel::empty(capacity).insert_all(items).order == keys_of(items),
        CacheModel::empty(capacity).insert_all(items).wf(),
        CacheModel::empty(capacity).insert_all(items).capacity == capacity,
    decreases items.len(),
{
    let e = CacheModel::empty(capacity);
    assert(e.order.to_set() =~= e.entries.dom());
    lemma_len_within_capacity(e, items);
    if items.len() > 0 {
        let prev = items.drop_last();
        lemma_fill_without_eviction(capacity, prev);
        let m = e.insert_all(prev);
        let k = items.last().0;
        assert(!m.order.contains(k)) by {
            if m.order.contains(k) {
                let i = choose|i: int| 0 <= i < m.order.len() && m.order[i] == k;
                assert(prev[i].0 == k);
                assert(items[i].0 == items[items.len() - 1].0);
            }
        }
        assert(!m.order.to_set().contains(k));
        assert(keys_of(items) =~= keys_of(prev).push(k));
    }
}

/// Inserting `capacity + 1` distinct keys into an empty cache leaves exactly `capacity` entries: the first key inserted is the
/// one evicted, and every later key is present.
pub proof fn lemma_overflow_evicts_first_key(capacity: nat, items: Seq<(u64, u64)>)
    requires
        items.len() == capacity + 1,
        distinct_keys(items),
    ensures
        CacheModel::empty(capacity).insert_all(items).len() == capacity,
        !CacheModel::empty(capacity).insert_all(items).entries.contains_key(items[0].0),
        forall|i: int|
            1 <= i < items.len() ==> CacheModel::empty(capacity).insert_all(
                items,
            ).entries.contains_key(#[trigger] items[i].0),
{
    let e = CacheModel::empty(capacity);
    let prev = items.drop_last();
    lemma_fill_without_eviction(capacity, prev);
    let m = e.insert_all(prev);
    let k = items.last().0;
    assert(!m.order.contains(k)) by {
        if m.order.contains(k) {
            let i = choose|i: int| 0 <= i < m.order.len() && m.order[i] == k;
            assert(prev[i].0 == k);
            assert(items[i].0 == items[items.len() - 1].0);
        }
    }
    assert(!m.entries.contains_key(k)) by {
        assert(!m.order.to_set().contains(k));
    }
    let r = e.insert_all(items);
    if capacity == 0 {
        assert(r == m);
        assert(m.entries.dom() =~= Set::<u64>::empty());
    } else {
        assert(m.order[0] == items[0].0);
        assert(r == m.insert(k, items.last().1));
        assert forall|i: int| 1 <= i < items.len() implies r.entries.contains_key(#[trigger] items[i].0) by {
            if i < items.len() - 1 {
                assert(m.order[i] == items[i].0);
                assert(m.order.contains(items[i].0));
                assert(m.order.to_set().contains(items[i].0));
                assert(items[0].0 != items[i].0);
            }
        }
    }
}

} // verus!
