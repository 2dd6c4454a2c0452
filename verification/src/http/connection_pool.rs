//! The per-client pool of idle upstream connections: a least-recently
//! -used cache from `host:port` lookup keys to connection tokens,
//! bounded to ten entries.
//!
//! The caller owns the live streams and names each by a token; the
//! pool decides which token, if any, stands for an idle connection to
//! a key, and which entry leaves when the pool is full.
use vstd::prelude::*;
use lru_cache::LruCache;

verus! {

#[verifier::external_type_specification]
#[verifier::external_body]
#[verifier::reject_recursive_types(K)]
#[verifier::reject_recursive_types(V)]
#[verifier::reject_recursive_types(S)]
pub struct ExLruCache<K: Eq + std::hash::Hash, V, S: std::hash::BuildHasher>(
    LruCache<K, V, S>,
);

/// A mapping with nothing in it.
pub open spec fn no_entries() -> Map<Seq<char>, u64> {
    Map::empty()
}

/// What the cache holds: its key-to-token mapping.
pub uninterp spec fn cache_entries(c: LruCache<String, u64>) -> Map<Seq<char>, u64>;

/// The bound the cache was created with.
pub uninterp spec fn cache_capacity(c: LruCache<String, u64>) -> nat;

/// Relies on LruCache::new: the new cache is empty and holds at most
/// `capacity` entries ever after.
#[verifier::external_body]
fn cache_new(capacity: usize) -> (r: LruCache<String, u64>)
    ensures
        cache_entries(r) == no_entries(),
        cache_capacity(r) == capacity,
{
    LruCache::new(capacity)
}

/// Relies on LruCache::insert: the pair is inserted, every other
/// surviving entry was already there with its value unchanged, and
/// when the cache was full its least-recently-used entry left, so the
/// bound still holds. With a positive capacity the inserted pair
/// itself never leaves.
#[verifier::external_body]
fn cache_insert(c: &mut LruCache<String, u64>, k: String, v: u64)
    ensures
        cache_capacity(*final(c)) == cache_capacity(*old(c)),
        cache_entries(*final(c)).dom().finite(),
        cache_capacity(*old(c)) >= 1 ==> cache_entries(*final(c)).contains_pair(k@, v),
        forall|k2: Seq<char>|
            #[trigger] cache_entries(*final(c)).dom().contains(k2) ==> k2 == k@ || cache_entries(
                *old(c),
            ).dom().contains(k2),
        forall|k2: Seq<char>|
            k2 != k@ && #[trigger] cache_entries(*final(c)).dom().contains(k2) ==> cache_entries(
                *final(c),
            )[k2] == cache_entries(*old(c))[k2],
        (cache_entries(*old(c)).dom().finite() && cache_entries(*old(c)).dom().len()
            <= cache_capacity(*old(c))) ==> cache_entries(*final(c)).dom().len()
            <= cache_capacity(*old(c)),
{
    let _ = c.insert(k, v);
}

/// Relies on LruCache::remove: the entry for `k`, if any, leaves and
/// its token is returned; nothing else changes.
#[verifier::external_body]
fn cache_remove(c: &mut LruCache<String, u64>, k: &str) -> (r: Option<u64>)
    ensures
        cache_capacity(*final(c)) == cache_capacity(*old(c)),
        cache_entries(*final(c)) == cache_entries(*old(c)).remove(k@),
        r == (if cache_entries(*old(c)).dom().contains(k@) {
            Some(cache_entries(*old(c))[k@])
        } else {
            None::<u64>
        }),
{
    c.remove(k)
}

/// Relies on LruCache::len: the number of entries held.
#[verifier::external_body]
fn cache_len(c: &LruCache<String, u64>) -> (r: usize)
    ensures
        cache_entries(*c).dom().finite() ==> r == cache_entries(*c).dom().len(),
{
    c.len()
}

/// The pool holds at most this many idle connections.
pub const POOL_CAPACITY: usize = 10;

/// What checking out a key from entries `m` yields: the token it
/// maps, when it maps one.
pub open spec fn checkout_spec(m: Map<Seq<char>, u64>, k: Seq<char>) -> Option<u64> {
    if m.dom().contains(k) {
        Some(m[k])
    } else {
        None
    }
}

/// A per-client pool of idle upstream connection tokens, keyed by the
/// `host:port` string the connection was dialed for.
pub struct ConnectionPool {
    connections: LruCache<String, u64>,
}

impl ConnectionPool {
    /// What the pool holds: its key-to-token mapping.
    pub closed spec fn entries(&self) -> Map<Seq<char>, u64> {
        cache_entries(self.connections)
    }

    /// The pool's invariant: its bound is ten and it holds no more
    /// than that.
    pub closed spec fn wf(&self) -> bool {
        &&& cache_capacity(self.connections) == POOL_CAPACITY
        &&& cache_entries(self.connections).dom().finite()
        &&& cache_entries(self.connections).dom().len() <= POOL_CAPACITY
    }

    /// A well-formed pool never holds more than ten entries.
    pub proof fn lemma_bounded(&self)
        requires
            self.wf(),
        ensures
            self.entries().dom().finite(),
            self.entries().dom().len() <= POOL_CAPACITY,
    {
    }

    /// An empty pool.
    pub fn new() -> (r: ConnectionPool)
        ensures
            r.wf(),
            r.entries() == no_entries(),
    {
        let c = cache_new(POOL_CAPACITY);
        proof {
            assert(no_entries().dom() =~= Set::<Seq<char>>::empty());
        }
        ConnectionPool { connections: c }
    }

    /// Takes the idle connection for `key` out of the pool, when one
    /// is there.
    pub fn checkout(&mut self, key: &str) -> (r: Option<u64>)
        requires
            old(self).wf(),
        ensures
            final(self).wf(),
            r == checkout_spec(old(self).entries(), key@),
            final(self).entries() == old(self).entries().remove(key@),
    {
        let r = cache_remove(&mut self.connections, key);
        proof {
            vstd::set_lib::lemma_len_subset(
                final(self).entries().dom(),
                old(self).entries().dom(),
            );
        }
        r
    }

    /// Returns the connection named `token` to the pool under `key`.
    /// The pair is then in the pool; every other surviving entry kept
    /// its token, none appeared from nowhere, and the bound holds,
    /// the least-recently-used entry leaving when the pool was full.
    pub fn release(&mut self, key: &str, token: u64)
        requires
            old(self).wf(),
        ensures
            final(self).wf(),
            final(self).entries().contains_pair(key@, token),
            forall|k2: Seq<char>|
                #[trigger] final(self).entries().dom().contains(k2) ==> k2 == key@
                    || old(self).entries().dom().contains(k2),
            forall|k2: Seq<char>|
                k2 != key@ && #[trigger] final(self).entries().dom().contains(k2)
                    ==> final(self).entries()[k2] == old(self).entries()[k2],
    {
        cache_insert(&mut self.connections, key.to_owned(), token);
    }

    /// How many idle connections the pool holds.
    pub fn len(&self) -> (r: usize)
        requires
            self.wf(),
        ensures
            r == self.entries().dom().len(),
            r <= POOL_CAPACITY,
    {
        cache_len(&self.connections)
    }
}

/// Releasing a connection under a key and checking the same key out
/// again, with nothing in between, yields the same connection back.
pub proof fn lemma_release_then_checkout(p: ConnectionPool, key: Seq<char>, token: u64)
    requires
        p.entries().contains_pair(key, token),
    ensures
        checkout_spec(p.entries(), key) == Some(token),
{
}

} // verus!
