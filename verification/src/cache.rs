//! Content-addressed module cache: a store of compiled artifacts keyed by a
//! 32-byte content hash, shared by many concurrent callers through a lock,
//! with per-handle memory accounting kept out of the shared state.

use vstd::prelude::*;
use vstd::rwlock::RwLock;
use std::sync::Arc;
use crate::budget::{Budget, CostParamEntry, CostParams, CostType, COST_TYPE_COUNT};
use crate::codec::read_bytes;
use crate::errors::{ConfigError, HostFault};

verus! {

broadcast use vstd::std_specs::vec::group_vec_axioms;

/// One cached artifact: the content hash of its bytecode, and the compiled
/// module it maps to.
#[derive(Debug, PartialEq, Eq)]
pub struct CacheEntry {
    pub key: Vec<u8>,
    pub module: Vec<u8>,
}

/// The storage behind the cache: artifacts in insertion order, keys unique.
#[derive(Debug, PartialEq, Eq)]
pub struct CacheStore {
    pub entries: Vec<CacheEntry>,
}

/// The mapping a list of cache entries holds, later entries winning.
pub open spec fn spec_map_of(entries: Seq<CacheEntry>) -> Map<Seq<u8>, Seq<u8>>
    decreases entries,
{
    if entries.len() == 0 {
        Map::empty()
    } else {
        spec_map_of(entries.drop_last()).insert(entries.last().key@, entries.last().module@)
    }
}

/// A key is in the mapping exactly when some entry holds it.
pub proof fn lemma_map_of_dom(entries: Seq<CacheEntry>, k: Seq<u8>)
    ensures
        spec_map_of(entries).dom().contains(k) <==> exists|i: int|
            0 <= i < entries.len() && entries[i].key@ == k,
    decreases entries,
{
    if entries.len() > 0 {
        lemma_map_of_dom(entries.drop_last(), k);
        if entries.last().key@ == k {
            assert(entries[entries.len() - 1].key@ == k);
        } else {
            if spec_map_of(entries).dom().contains(k) {
                let i = choose|i: int|
                    0 <= i < entries.drop_last().len() && entries.drop_last()[i].key@ == k;
                assert(entries[i].key@ == k);
            }
            if exists|i: int| 0 <= i < entries.len() && entries[i].key@ == k {
                let i = choose|i: int| 0 <= i < entries.len() && entries[i].key@ == k;
                assert(entries.drop_last()[i].key@ == k);
            }
        }
    }
}

impl CacheStore {
    /// Keys are unique thirty-two byte hashes.
    pub open spec fn wf(&self) -> bool {
        &&& forall|i: int, j: int|
            0 <= i < j < self.entries@.len() ==> (#[trigger] self.entries@[i].key@) != (
            #[trigger] self.entries@[j].key@)
        &&& forall|i: int|
            0 <= i < self.entries@.len() ==> (#[trigger] self.entries@[i].key@).len() == 32
    }

    /// What the store maps each content hash to.
    pub open spec fn contents(&self) -> Map<Seq<u8>, Seq<u8>> {
        spec_map_of(self.entries@)
    }

    /// An empty store.
    pub fn new() -> (r: CacheStore)
        ensures
            r.wf(),
            r.contents() == Map::<Seq<u8>, Seq<u8>>::empty(),
    {
        CacheStore { entries: Vec::new() }
    }

    /// The position of the entry holding `key`, if any.
    fn find(&self, key: &Vec<u8>) -> (r: Option<usize>)
        ensures
            match r {
                Some(i) => i < self.entries@.len() && self.entries@[i as int].key@ == key@,
                None => forall|i: int|
                    0 <= i < self.entries@.len() ==> (#[trigger] self.entries@[i].key@) != key@,
            },
    {
        let mut i: usize = 0;
        while i < self.entries.len()
            invariant
                i <= self.entries@.len(),
                forall|t: int|
                    0 <= t < i ==> (#[trigger] self.entries@[t].key@) != key@,
            decreases self.entries@.len() - i,
        {
            if bytes_eq(&self.entries[i].key, key) {
                return Some(i);
            }
            i = i + 1;
        }
        None
    }

    /// Whether the store holds an artifact for `key`.
    pub fn contains(&self, key: &Vec<u8>) -> (r: bool)
        ensures
            r == self.contents().dom().contains(key@),
    {
        proof {
            lemma_map_of_dom(self.entries@, key@);
        }
        self.find(key).is_some()
    }

    /// Removes the artifact stored for `key`; absence is no error.
    pub fn remove_module(&mut self, key: &Vec<u8>)
        requires
            old(self).wf(),
        ensures
            final(self).wf(),
            final(self).contents() == old(self).contents().remove(key@),
            forall|i: int|
                #![trigger final(self).entries@[i]]
                0 <= i < final(self).entries@.len() ==> final(self).entries@[i].key@ != key@,
    {
        proof {
            lemma_map_of_dom(self.entries@, key@);
        }
        match self.find(key) {
            Some(i) => {
                proof {
                    lemma_map_of_remove(self.entries@, i as int);
                }
                self.entries.remove(i);
                proof {
                    assert forall|t: int|
                        0 <= t < self.entries@.len() implies (#[trigger] self.entries@[t].key@)
                        != key@ by {
                        if t < i {
                            assert(self.entries@[t] == old(self).entries@[t]);
                        } else {
                            assert(self.entries@[t] == old(self).entries@[t + 1]);
                        }
                    }
                }
            }
            None => {
                proof {
                    assert(!old(self).contents().dom().contains(key@));
                    assert(old(self).contents().remove(key@) =~= old(self).contents());
                }
            }
        }
    }

    /// Stores an artifact for `key`, replacing any artifact already there.
    pub fn insert_module(&mut self, key: &Vec<u8>, module: &Vec<u8>)
        requires
            old(self).wf(),
            key@.len() == 32,
        ensures
            final(self).wf(),
            final(self).contents() == old(self).contents().insert(key@, module@),
    {
        self.remove_module(key);
        let entry = CacheEntry { key: copy_bytes(key), module: copy_bytes(module) };
        let ghost mid = self.entries@;
        self.entries.push(entry);
        proof {
            assert(self.entries@.drop_last() =~= mid);
            assert(old(self).contents().remove(key@).insert(key@, module@) =~= old(
                self,
            ).contents().insert(key@, module@));
        }
    }

    /// Removes every artifact.
    pub fn clear(&mut self)
        ensures
            final(self).wf(),
            final(self).contents() == Map::<Seq<u8>, Seq<u8>>::empty(),
    {
        self.entries = Vec::new();
    }
}

/// Removing one entry removes exactly its key from the mapping.
proof fn lemma_map_of_remove(entries: Seq<CacheEntry>, i: int)
    requires
        0 <= i < entries.len(),
        forall|a: int, b: int|
            0 <= a < b < entries.len() ==> (#[trigger] entries[a].key@) != (
            #[trigger] entries[b].key@),
    ensures
        spec_map_of(entries.remove(i)) == spec_map_of(entries).remove(entries[i].key@),
    decreases entries,
{
    let k = entries[i].key@;
    if i == entries.len() - 1 {
        assert(entries.remove(i) =~= entries.drop_last());
        lemma_map_of_dom(entries.drop_last(), k);
        assert(!spec_map_of(entries.drop_last()).dom().contains(k));
        assert(spec_map_of(entries.drop_last()).insert(k, entries.last().module@).remove(k)
            =~= spec_map_of(entries.drop_last()));
    } else {
        lemma_map_of_remove(entries.drop_last(), i);
        assert(entries.remove(i).drop_last() =~= entries.drop_last().remove(i));
        assert(entries.remove(i).last() == entries.last());
        let lastk = entries.last().key@;
        let lastv = entries.last().module@;
        assert(lastk != k);
        assert(spec_map_of(entries.drop_last()).remove(k).insert(lastk, lastv) =~= spec_map_of(
            entries.drop_last(),
        ).insert(lastk, lastv).remove(k));
    }
}

/// Whether two byte buffers hold the same bytes.
fn bytes_eq(a: &Vec<u8>, b: &Vec<u8>) -> (r: bool)
    ensures
        r == (a@ == b@),
{
    if a.len() != b.len() {
        assert(a@ !~= b@);
        return false;
    }
    let mut i: usize = 0;
    while i < a.len()
        invariant
            i <= a@.len(),
            a@.len() == b@.len(),
            forall|t: int| 0 <= t < i ==> a@[t] == b@[t],
        decreases a@.len() - i,
    {
        if a[i] != b[i] {
            assert(a@ !~= b@);
            return false;
        }
        i = i + 1;
    }
    proof {
        assert(a@ =~= b@);
    }
    true
}

/// Copies a byte buffer.
fn copy_bytes(b: &Vec<u8>) -> (r: Vec<u8>)
    ensures
        r@ == b@,
{
    let r = read_bytes(b, 0, b.len());
    assert(r@ =~= b@);
    r
}

/// After storing under a key the store holds it; after removing the key, or
/// clearing, it does not.
pub proof fn lemma_store_membership(m: Map<Seq<u8>, Seq<u8>>, k: Seq<u8>, v: Seq<u8>)
    ensures
        m.insert(k, v).dom().contains(k),
        !m.remove(k).dom().contains(k),
        !Map::<Seq<u8>, Seq<u8>>::empty().dom().contains(k),
{
}

/// The throwaway accounting context of one compilation: a budget with no
/// ceilings, charged for the compilation alone and read out once.
pub struct CoreCompilationContext {
    pub unlimited_budget: Budget,
}

impl CoreCompilationContext {
    /// Builds a fresh context with an unlimited budget whose memory model
    /// charges one byte per byte of bytecode.
    pub fn new() -> (r: Result<CoreCompilationContext, ConfigError>)
        ensures
            r matches Ok(c) && c.unlimited_budget.wf() && c.unlimited_budget.total_cpu == 0
                && c.unlimited_budget.total_mem == 0 && c.unlimited_budget.cpu_limit == u64::MAX
                && c.unlimited_budget.mem_limit == u64::MAX && (forall|i: int|
                0 <= i < COST_TYPE_COUNT
                    ==> (#[trigger] c.unlimited_budget.mem_params.entries@[i]) == (CostParamEntry {
                    const_term: 0,
                    linear_term: 1,
                })) && (forall|i: int|
                0 <= i < COST_TYPE_COUNT
                    ==> (#[trigger] c.unlimited_budget.cpu_params.entries@[i]) == (CostParamEntry {
                    const_term: 0,
                    linear_term: 1,
                })),
    {
        let mut entries: Vec<CostParamEntry> = Vec::new();
        let mut i: usize = 0;
        while i < COST_TYPE_COUNT
            invariant
                i <= COST_TYPE_COUNT,
                entries@.len() == i,
                forall|t: int|
                    0 <= t < i ==> (#[trigger] entries@[t]) == (CostParamEntry {
                        const_term: 0,
                        linear_term: 1,
                    }),
            decreases COST_TYPE_COUNT - i,
        {
            entries.push(CostParamEntry { const_term: 0, linear_term: 1 });
            i = i + 1;
        }
        let mut mem_entries: Vec<CostParamEntry> = Vec::new();
        let mut j: usize = 0;
        while j < COST_TYPE_COUNT
            invariant
                j <= COST_TYPE_COUNT,
                mem_entries@.len() == j,
                forall|t: int|
                    0 <= t < j ==> (#[trigger] mem_entries@[t]) == (CostParamEntry {
                        const_term: 0,
                        linear_term: 1,
                    }),
            decreases COST_TYPE_COUNT - j,
        {
            mem_entries.push(CostParamEntry { const_term: 0, linear_term: 1 });
            j = j + 1;
        }
        match Budget::try_from_configs(
            u64::MAX,
            u64::MAX,
            CostParams { entries },
            CostParams { entries: mem_entries },
        ) {
            Ok(b) => Ok(CoreCompilationContext { unlimited_budget: b }),
            Err(e) => {
                proof {
                    assert(false);
                }
                Err(e)
            }
        }
    }

    /// The context's budget.
    pub fn as_budget(&self) -> (r: &Budget)
        ensures
            *r == self.unlimited_budget,
    {
        &self.unlimited_budget
    }
}

/// One caller's handle on the shared cache: a shared reference to the
/// internally synchronized store, plus a private, unshared memory counter.
pub struct ProtocolSpecificModuleCache {
    pub module_cache: Arc<RwLock<CacheStore, spec_fn(CacheStore) -> bool>>,
    pub mem_bytes_consumed: u64,
}

impl ProtocolSpecificModuleCache {
    /// Every value the shared lock can hold is a well-formed store.
    pub open spec fn wf(&self) -> bool {
        forall|s: CacheStore| (*self.module_cache).inv(s) == s.wf()
    }

    /// Builds a handle on a fresh, empty shared store with a zeroed counter.
    pub fn new() -> (r: Result<ProtocolSpecificModuleCache, ConfigError>)
        ensures
            r matches Ok(c) && c.wf() && c.mem_bytes_consumed == 0,
    {
        let store = CacheStore::new();
        let lock = RwLock::<CacheStore, spec_fn(CacheStore) -> bool>::new(
            store,
            Ghost(|s: CacheStore| s.wf()),
        );
        Ok(ProtocolSpecificModuleCache { module_cache: Arc::new(lock), mem_bytes_consumed: 0 })
    }

    /// Stores the compiled artifact of `wasm` under its 32-byte content hash,
    /// replacing any artifact already there. The memory cost of the
    /// compilation is charged to a throwaway accounting context and added,
    /// saturating, to this handle's private counter, never to the shared
    /// store.
    pub fn compile(&mut self, key: &Vec<u8>, wasm: &Vec<u8>) -> (r: Result<(), HostFault>)
        requires
            old(self).wf(),
            key@.len() == 32,
        ensures
            r is Ok,
            final(self).wf(),
            final(self).module_cache == old(self).module_cache,
            final(self).mem_bytes_consumed == if old(self).mem_bytes_consumed + wasm@.len()
                <= u64::MAX {
                old(self).mem_bytes_consumed + wasm@.len()
            } else {
                u64::MAX as int
            },
    {
        let mut context = match CoreCompilationContext::new() {
            Ok(c) => c,
            Err(_) => {
                proof {
                    assert(false);
                }
                return Err(HostFault::unrecoverable());
            }
        };
        proof {
            vstd::arithmetic::mul::lemma_mul_basics(wasm@.len() as int);
        }
        match context.unlimited_budget.charge(CostType::VmInstantiation, wasm.len() as u64) {
            Ok(()) => {}
            Err(_) => {
                proof {
                    assert(false);
                }
                return Err(HostFault::unrecoverable());
            }
        }
        let consumed = context.unlimited_budget.get_mem_bytes_consumed();
        let (mut store, handle) = self.module_cache.acquire_write();
        store.insert_module(key, wasm);
        handle.release_write(store);
        if consumed <= u64::MAX - self.mem_bytes_consumed {
            self.mem_bytes_consumed = self.mem_bytes_consumed + consumed;
        } else {
            self.mem_bytes_consumed = u64::MAX;
        }
        Ok(())
    }

    /// Removes the artifact stored under `key` from the shared store; an
    /// absent key is removed silently.
    pub fn evict(&mut self, key: &Vec<u8>) -> (r: Result<(), HostFault>)
        requires
            old(self).wf(),
        ensures
            r is Ok,
            final(self).wf(),
            final(self).module_cache == old(self).module_cache,
            final(self).mem_bytes_consumed == old(self).mem_bytes_consumed,
    {
        let (mut store, handle) = self.module_cache.acquire_write();
        store.remove_module(key);
        handle.release_write(store);
        Ok(())
    }

    /// Removes every artifact from the shared store.
    pub fn clear(&mut self) -> (r: Result<(), HostFault>)
        requires
            old(self).wf(),
        ensures
            r is Ok,
            final(self).wf(),
            final(self).module_cache == old(self).module_cache,
            final(self).mem_bytes_consumed == old(self).mem_bytes_consumed,
    {
        let (mut store, handle) = self.module_cache.acquire_write();
        store.clear();
        handle.release_write(store);
        Ok(())
    }

    /// Whether the shared store currently holds an artifact under `key`; the
    /// answer is a snapshot, as other handles may change the store.
    pub fn contains_module(&self, key: &Vec<u8>) -> (r: Result<bool, HostFault>)
        requires
            self.wf(),
        ensures
            r is Ok,
    {
        let read_handle = self.module_cache.acquire_read();
        let found = read_handle.borrow().contains(key);
        read_handle.release_read();
        Ok(found)
    }

    /// The bytes this handle's compilations have consumed, cumulatively.
    pub fn get_mem_bytes_consumed(&self) -> (r: Result<u64, HostFault>)
        ensures
            r == Ok::<_, HostFault>(self.mem_bytes_consumed),
    {
        Ok(self.mem_bytes_consumed)
    }

    /// Produces a new handle on the same shared store and engine, with its
    /// own zeroed counter, for safe concurrent compilation from another call
    /// site.
    pub fn shallow_clone(&self) -> (r: Result<ProtocolSpecificModuleCache, HostFault>)
        requires
            self.wf(),
        ensures
            r matches Ok(c) && c.wf() && c.mem_bytes_consumed == 0 && c.module_cache
                == self.module_cache,
    {
        Ok(
            ProtocolSpecificModuleCache {
                module_cache: self.module_cache.clone(),
                mem_bytes_consumed: 0,
            },
        )
    }
}

} // verus!
