//! Paged, segmented memory with access permissions, a cache of reads, and a
//! garbage collector.

pub mod gc;
pub mod page_table;
pub mod permissions;
pub mod segment;

use crate::memory::gc::{segments_view, survivors, GarbageCollector};
use crate::memory::page_table::{allocation, allocations, PageTable, PageTableView};
use crate::memory::permissions::{AccessPermissions, Permission};
use crate::memory::segment::{MemorySegment, SegmentType, SegmentView};
use std::collections::HashMap;
use vstd::prelude::*;

verus! {

broadcast use vstd::std_specs::hash::group_hash_axioms;

/// Why a memory operation was refused.
#[derive(Debug, Clone, Copy, PartialEq, Eq, Structural)]
pub enum MemoryError {
    PageFault(usize),
    SegmentFault(usize),
    PermissionDenied(usize),
    OutOfMemory,
}

/// A place in memory: a segment, a page, and an offset within the page.
#[derive(Clone, Copy, Debug, PartialEq, Eq, Structural)]
pub struct MemoryAddress {
    pub segment_id: u32,
    pub page_id: u32,
    pub offset: u32,
}

impl MemoryAddress {
    /// The number that stands for the address where addresses are keys:
    /// the three parts side by side, the segment counting most.
    pub open spec fn spec_key(self) -> u128 {
        (self.segment_id as u128 * 0x1_0000_0000_0000_0000 + self.page_id as u128 * 0x1_0000_0000
            + self.offset as u128) as u128
    }

    pub fn new(segment_id: u32, page_id: u32, offset: u32) -> (r: Self)
        ensures
            r == (MemoryAddress { segment_id, page_id, offset }),
    {
        MemoryAddress { segment_id, page_id, offset }
    }

    /// The number that stands for the address where addresses are keys.
    pub fn key(self) -> (k: u128)
        ensures
            k == self.spec_key(),
    {
        self.segment_id as u128 * 0x1_0000_0000_0000_0000 + self.page_id as u128 * 0x1_0000_0000
            + self.offset as u128
    }

    /// Two addresses with one key are one address.
    pub proof fn law_key_names_one_address(a: MemoryAddress, b: MemoryAddress)
        requires
            a.spec_key() == b.spec_key(),
        ensures
            a == b,
    {
        let (sa, pa, oa) = (a.segment_id as int, a.page_id as int, a.offset as int);
        let (sb, pb, ob) = (b.segment_id as int, b.page_id as int, b.offset as int);
        assert(sa * 0x1_0000_0000_0000_0000 + pa * 0x1_0000_0000 + oa == sb
            * 0x1_0000_0000_0000_0000 + pb * 0x1_0000_0000 + ob);
        assert(sa == sb && pa == pb && oa == ob) by (nonlinear_arith)
            requires
                sa * 0x1_0000_0000_0000_0000 + pa * 0x1_0000_0000 + oa == sb
                    * 0x1_0000_0000_0000_0000 + pb * 0x1_0000_0000 + ob,
                0 <= sa < 0x1_0000_0000,
                0 <= sb < 0x1_0000_0000,
                0 <= pa < 0x1_0000_0000,
                0 <= pb < 0x1_0000_0000,
                0 <= oa < 0x1_0000_0000,
                0 <= ob < 0x1_0000_0000,
        ;
    }
}

/// Counters of what the memory manager has done.
#[derive(Debug, Clone, Copy, PartialEq, Eq, Structural)]
pub struct MemoryStats {
    pub total_allocations: usize,
    pub total_deallocations: usize,
    pub page_faults: usize,
    pub cache_hits: usize,
    pub cache_misses: usize,
}

impl Default for MemoryStats {
    fn default() -> (r: Self)
        ensures
            r == (MemoryStats {
                total_allocations: 0,
                total_deallocations: 0,
                page_faults: 0,
                cache_hits: 0,
                cache_misses: 0,
            }),
    {
        MemoryStats {
            total_allocations: 0,
            total_deallocations: 0,
            page_faults: 0,
            cache_hits: 0,
            cache_misses: 0,
        }
    }
}

/// The settings of a memory manager.
#[derive(Clone, Copy, Debug, PartialEq, Eq, Structural)]
pub struct MemoryConfig {
    pub page_size: usize,
    pub gc_threshold: usize,
    pub cache_size: usize,
}

/// A cache of byte strings by key. The keys are listed by use, the one
/// used last standing first; a key that is put twice is listed twice.
pub struct LRUCache {
    capacity: usize,
    cache: HashMap<u128, Vec<u8>>,
    lru: Vec<u128>,
}

/// What a cache holds, and the order of use of its keys.
pub struct CacheView {
    pub capacity: usize,
    pub entries: Map<u128, Seq<u8>>,
    pub order: Seq<u128>,
}

/// The position of the first occurrence of `key` in `order`, or the length
/// of `order` where it does not occur.
pub open spec fn first_position(order: Seq<u128>, key: u128) -> int
    decreases order.len(),
{
    if order.len() == 0 {
        0
    } else if order[0] == key {
        0
    } else {
        1 + first_position(order.drop_first(), key)
    }
}

/// The first position of `key` is `i` where `key` stands at `i` and nowhere
/// before, and also where `i` is the length and `key` stands nowhere.
pub proof fn lemma_first_is(order: Seq<u128>, key: u128, i: int)
    requires
        0 <= i <= order.len(),
        i < order.len() ==> order[i] == key,
        forall|j: int| 0 <= j < i ==> order[j] != key,
    ensures
        first_position(order, key) == i,
    decreases order.len(),
{
    if order.len() > 0 && i > 0 {
        assert(order[0] != key);
        let rest = order.drop_first();
        assert forall|j: int| 0 <= j < i - 1 implies rest[j] != key by {
            assert(rest[j] == order[j + 1]);
        }
        if i < order.len() {
            assert(rest[i - 1] == order[i]);
        }
        lemma_first_is(rest, key, i - 1);
    }
}

impl CacheView {
    /// The cache after `key` was looked up: a key that is listed moves to
    /// the front.
    pub open spec fn touched(self, key: u128) -> CacheView {
        let p = first_position(self.order, key);
        if p < self.order.len() {
            CacheView { order: seq![key] + self.order.remove(p), ..self }
        } else {
            self
        }
    }

    /// What a lookup of `key` returns: what the cache holds under a key
    /// that is listed.
    pub open spec fn found(self, key: u128) -> Option<Seq<u8>> {
        if first_position(self.order, key) < self.order.len() && self.entries.contains_key(key) {
            Some(self.entries[key])
        } else {
            None
        }
    }

    /// The cache after `value` was put under `key`: where the cache is
    /// full and lists a key, the key listed last leaves with what is held
    /// under it; then the value is held under `key`, which is listed first.
    pub open spec fn with(self, key: u128, value: Seq<u8>) -> CacheView {
        let (entries, order) = if self.entries.len() >= self.capacity && self.order.len() > 0 {
            (self.entries.remove(self.order.last()), self.order.drop_last())
        } else {
            (self.entries, self.order)
        };
        CacheView { entries: entries.insert(key, value), order: seq![key] + order, ..self }
    }

    /// The cache after `key` was removed: nothing is held under it, and
    /// its first listing is struck.
    pub open spec fn without(self, key: u128) -> CacheView {
        let p = first_position(self.order, key);
        CacheView {
            entries: self.entries.remove(key),
            order: if p < self.order.len() {
                self.order.remove(p)
            } else {
                self.order
            },
            ..self
        }
    }
}

impl View for LRUCache {
    type V = CacheView;

    closed spec fn view(&self) -> CacheView {
        CacheView {
            capacity: self.capacity,
            entries: Map::new(
                |k: u128| self.cache@.contains_key(k),
                |k: u128| self.cache@[k]@,
            ),
            order: self.lru@,
        }
    }
}

impl LRUCache {
    /// An empty cache for `capacity` entries.
    pub fn new(capacity: usize) -> (r: Self)
        ensures
            r@ == (CacheView { capacity, entries: Map::empty(), order: Seq::empty() }),
    {
        let r = LRUCache { capacity, cache: HashMap::new(), lru: Vec::new() };
        assert(r@.entries =~= Map::<u128, Seq<u8>>::empty());
        r
    }

    /// The position of the first listing of `key`, if it is listed.
    fn position(&self, key: u128) -> (r: Option<usize>)
        ensures
            match r {
                Some(p) => p == first_position(self@.order, key) && p < self@.order.len(),
                None => first_position(self@.order, key) == self@.order.len(),
            },
    {
        let mut i: usize = 0;
        while i < self.lru.len()
            invariant
                i <= self.lru.len(),
                forall|j: int| 0 <= j < i ==> self.lru@[j] != key,
            decreases self.lru.len() - i,
        {
            if self.lru[i] == key {
                proof {
                    lemma_first_is(self.lru@, key, i as int);
                }
                return Some(i);
            }
            i += 1;
        }
        proof {
            lemma_first_is(self.lru@, key, self.lru@.len() as int);
        }
        None
    }

    /// Looks `key` up: a key that is listed moves to the front, and what
    /// is held under it is returned.
    pub fn get(&mut self, key: u128) -> (r: Option<Vec<u8>>)
        ensures
            final(self)@ == old(self)@.touched(key),
            match r {
                Some(v) => old(self)@.found(key) == Some(v@),
                None => old(self)@.found(key) is None,
            },
    {
        match self.position(key) {
            Some(p) => {
                self.lru.remove(p);
                self.lru.insert(0, key);
                assert(self.lru@ =~= seq![key] + old(self).lru@.remove(p as int));
                assert(self@.entries =~= old(self)@.entries);
                match self.cache.get(&key) {
                    Some(v) => Some(crate::vm::value::clone_bytes(v)),
                    None => None,
                }
            },
            None => None,
        }
    }

    /// Puts `value` under `key`.
    pub fn insert(&mut self, key: u128, value: Vec<u8>)
        ensures
            final(self)@ == old(self)@.with(key, value@),
    {
        assert(old(self)@.entries.dom() =~= old(self).cache@.dom());
        if self.cache.len() >= self.capacity {
            match self.lru.pop() {
                Some(last) => {
                    self.cache.remove(&last);
                    assert(self@.entries =~= old(self)@.entries.remove(last));
                },
                None => {},
            }
        }
        let ghost mid = self@;
        self.cache.insert(key, value);
        self.lru.insert(0, key);
        assert(self@.entries =~= mid.entries.insert(key, value@));
        assert(self@.order =~= seq![key] + mid.order);
    }

    /// Removes `key`.
    pub fn remove(&mut self, key: u128)
        ensures
            final(self)@ == old(self)@.without(key),
    {
        self.cache.remove(&key);
        assert(self@.entries =~= old(self)@.entries.remove(key));
        match self.position(key) {
            Some(p) => {
                self.lru.remove(p);
            },
            None => {},
        }
    }
}

/// The memory manager: segments, their pages and permissions, a cache of
/// reads, and the collector that frees what nothing holds.
pub struct MemoryManager {
    page_table: PageTable,
    segments: Vec<MemorySegment>,
    permissions: HashMap<u128, AccessPermissions>,
    gc: GarbageCollector,
    cache: LRUCache,
    stats: MemoryStats,
}

/// The number of pages of `page_size` bytes that `size` bytes take.
pub open spec fn pages_for(size: usize, page_size: usize) -> nat {
    if page_size == 0 {
        0
    } else {
        (size as int / page_size as int + (if size as int % page_size as int == 0 {
            0int
        } else {
            1int
        })) as nat
    }
}

/// The sizes of the segments, added up.
pub open spec fn total_size(segments: Seq<SegmentView>) -> int
    decreases segments.len(),
{
    if segments.len() == 0 {
        0
    } else {
        total_size(segments.drop_last()) + segments.last().size
    }
}

impl MemoryManager {
    pub closed spec fn pages(&self) -> PageTableView {
        self.page_table@
    }

    pub closed spec fn segments(&self) -> Seq<SegmentView> {
        segments_view(self.segments@)
    }

    /// The permissions by the key of the address they are set for.
    pub closed spec fn permissions(&self) -> Map<u128, AccessPermissions> {
        self.permissions@
    }

    pub closed spec fn cache(&self) -> CacheView {
        self.cache@
    }

    pub closed spec fn stats(&self) -> MemoryStats {
        self.stats
    }

    pub closed spec fn collector(&self) -> GarbageCollector {
        self.gc
    }

    /// What reading `size` bytes at `addr` gives. What the cache holds for
    /// the address comes first. Otherwise an address that does not grant
    /// reading is refused; a page that is missing or not present, or a range
    /// that leaves the page, is a page fault; and else the bytes are those of
    /// the page.
    pub open spec fn read_result(&self, addr: MemoryAddress, size: usize) -> Result<
        Seq<u8>,
        MemoryError,
    > {
        match self.cache().found(addr.spec_key()) {
            Some(cached) => Ok(cached),
            None => if !(self.permissions().contains_key(addr.spec_key())
                && self.permissions()[addr.spec_key()].allows(Permission::Read)) {
                Err(MemoryError::PermissionDenied(addr.segment_id as usize))
            } else if !(self.pages().pages.contains_key(addr.page_id)
                && self.pages().pages[addr.page_id].flags.present
                && crate::memory::page_table::in_page(
                self.pages().page_size,
                addr.offset as usize,
                size as int,
            )) {
                Err(MemoryError::PageFault(addr.page_id as usize))
            } else {
                Ok(
                    self.pages().pages[addr.page_id].data.subrange(
                        addr.offset as int,
                        addr.offset + size,
                    ),
                )
            },
        }
    }

    /// The cache after reading `size` bytes at `addr`: the address was used
    /// last, and bytes that came from a page are now cached for it.
    pub open spec fn cache_after_read(&self, addr: MemoryAddress, size: usize) -> CacheView {
        let touched = self.cache().touched(addr.spec_key());
        match (self.cache().found(addr.spec_key()), self.read_result(addr, size)) {
            (None, Ok(bytes)) => touched.with(addr.spec_key(), bytes),
            _ => touched,
        }
    }

    /// The counters after a read at `addr`: one more hit where the cache
    /// holds something for the address, else one more miss.
    pub open spec fn stats_after_read(&self, addr: MemoryAddress) -> MemoryStats {
        if self.cache().found(addr.spec_key()) is Some {
            MemoryStats { cache_hits: (self.stats().cache_hits + 1) as usize, ..self.stats() }
        } else {
            MemoryStats { cache_misses: (self.stats().cache_misses + 1) as usize, ..self.stats() }
        }
    }

    pub closed spec fn wf(&self) -> bool {
        self.page_table.wf() && self.gc.wf()
    }

    /// The counters.
    pub fn statistics(&self) -> (r: MemoryStats)
        ensures
            r == self.stats(),
    {
        self.stats
    }

    /// A manager without segments or pages.
    pub fn new(config: MemoryConfig) -> (r: Self)
        ensures
            r.wf(),
            r.pages() == (PageTableView {
                pages: Map::empty(),
                free_pages: Seq::empty(),
                page_size: config.page_size,
                next_page_id: 0,
            }),
            r.segments() == Seq::<SegmentView>::empty(),
            r.permissions() == Map::<u128, AccessPermissions>::empty(),
            r.cache() == (CacheView {
                capacity: config.cache_size,
                entries: Map::empty(),
                order: Seq::empty(),
            }),
            r.stats() == (MemoryStats {
                total_allocations: 0,
                total_deallocations: 0,
                page_faults: 0,
                cache_hits: 0,
                cache_misses: 0,
            }),
            r.collector().spec_threshold() == config.gc_threshold,
    {
        let r = MemoryManager {
            page_table: PageTable::new(config.page_size),
            segments: Vec::new(),
            permissions: HashMap::new(),
            gc: GarbageCollector::new(config.gc_threshold),
            cache: LRUCache::new(config.cache_size),
            stats: MemoryStats::default(),
        };
        assert(r.segments() =~= Seq::<SegmentView>::empty());
        r
    }

    /// Whether the segments together have reached the collector's
    /// threshold.
    fn should_collect_garbage(&self) -> (r: bool)
        ensures
            r == (total_size(self.segments()) >= self.gc.spec_threshold()),
    {
        let threshold = self.gc.threshold();
        let mut total: usize = 0;
        let mut i: usize = 0;
        proof {
            lemma_total_size_nonnegative(self.segments());
        }
        while i < self.segments.len()
            invariant
                i <= self.segments.len(),
                total == total_size(self.segments().take(i as int)),
                total < threshold || i == 0,
                threshold == self.gc.spec_threshold(),
            decreases self.segments.len() - i,
        {
            proof {
                let t = self.segments().take(i + 1);
                assert(t.drop_last() =~= self.segments().take(i as int));
                assert(t.last() == self.segments@[i as int]@);
                lemma_total_size_grows(self.segments(), i + 1);
            }
            match total.checked_add(self.segments[i].size()) {
                Some(sum) => {
                    if sum >= threshold {
                        proof {
                            lemma_total_size_grows(self.segments(), i + 1);
                        }
                        return true;
                    }
                    total = sum;
                },
                None => {
                    proof {
                        lemma_total_size_grows(self.segments(), i + 1);
                    }
                    return true;
                },
            }
            i += 1;
        }
        assert(self.segments().take(self.segments.len() as int) =~= self.segments());
        total >= threshold
    }

    /// Whether `required` is granted for `addr`: denied where nothing is
    /// set for the address or what is set does not grant it.
    fn check_permissions(&self, addr: &MemoryAddress, required: Permission) -> (r: Result<
        (),
        MemoryError,
    >)
        ensures
            match r {
                Ok(()) => self.permissions().contains_key(addr.spec_key())
                    && self.permissions()[addr.spec_key()].allows(required),
                Err(e) => e == MemoryError::PermissionDenied(addr.segment_id as usize) && !(
                self.permissions().contains_key(addr.spec_key())
                    && self.permissions()[addr.spec_key()].allows(required)),
            },
    {
        match self.permissions.get(&addr.key()) {
            Some(perms) => {
                if perms.has_permission(required) {
                    Ok(())
                } else {
                    Err(MemoryError::PermissionDenied(addr.segment_id as usize))
                }
            },
            None => Err(MemoryError::PermissionDenied(addr.segment_id as usize)),
        }
    }

    /// Sets the permissions for `addr`.
    pub fn protect(&mut self, addr: MemoryAddress, perms: AccessPermissions) -> (r: Result<
        (),
        MemoryError,
    >)
        requires
            old(self).wf(),
        ensures
            final(self).wf(),
            r is Ok,
            final(self).permissions() == old(self).permissions().insert(addr.spec_key(), perms),
            final(self).pages() == old(self).pages(),
            final(self).segments() == old(self).segments(),
            final(self).cache() == old(self).cache(),
            final(self).stats() == old(self).stats(),
    {
        self.permissions.insert(addr.key(), perms);
        Ok(())
    }

    /// Writes `data` at `addr`, which must grant writing, and drops what
    /// the cache holds for the address. A refusal changes nothing.
    pub fn write(&mut self, addr: MemoryAddress, data: &[u8]) -> (r: Result<(), MemoryError>)
        requires
            old(self).wf(),
        ensures
            final(self).wf(),
            final(self).permissions() == old(self).permissions(),
            final(self).segments() == old(self).segments(),
            final(self).stats() == old(self).stats(),
            match r {
                Ok(()) => {
                    &&& old(self).permissions().contains_key(addr.spec_key())
                    &&& old(self).permissions()[addr.spec_key()].allows(Permission::Write)
                    &&& old(self).pages().pages.contains_key(addr.page_id)
                    &&& final(self).pages() == (PageTableView {
                        pages: old(self).pages().pages.insert(
                            addr.page_id,
                            crate::memory::page_table::PageView {
                                data: crate::memory::page_table::patched(
                                    old(self).pages().pages[addr.page_id].data,
                                    addr.offset as int,
                                    data@,
                                ),
                                flags: crate::memory::page_table::PageFlags {
                                    dirty: true,
                                    accessed: true,
                                    ..old(self).pages().pages[addr.page_id].flags
                                },
                            },
                        ),
                        ..old(self).pages()
                    })
                    &&& final(self).cache() == old(self).cache().without(addr.spec_key())
                },
                Err(e) => final(self).pages() == old(self).pages() && final(self).cache()
                    == old(self).cache()
                    && (if old(self).permissions().contains_key(addr.spec_key())
                    && old(self).permissions()[addr.spec_key()].allows(Permission::Write) {
                    e == MemoryError::PageFault(addr.page_id as usize)
                        && !(old(self).pages().pages.contains_key(addr.page_id)
                        && old(self).pages().pages[addr.page_id].flags.present
                        && old(self).pages().pages[addr.page_id].flags.writable
                        && crate::memory::page_table::in_page(
                        old(self).pages().page_size,
                        addr.offset as usize,
                        data@.len() as int,
                    ))
                } else {
                    e == MemoryError::PermissionDenied(addr.segment_id as usize)
                }),
            },
    {
        match self.check_permissions(&addr, Permission::Write) {
            Ok(()) => {},
            Err(e) => { return Err(e); },
        }
        match self.page_table.write(addr.page_id, addr.offset as usize, data) {
            Ok(()) => {},
            Err(e) => { return Err(e); },
        }
        self.cache.remove(addr.key());
        Ok(())
    }

    /// Reads `size` bytes at `addr`. What the cache holds for the address
    /// is returned as it is and counted as a hit; otherwise the read is
    /// counted as a miss, the address must grant reading, and what the page
    /// holds is returned and cached.
    pub fn read(&mut self, addr: MemoryAddress, size: usize) -> (r: Result<Vec<u8>, MemoryError>)
        requires
            old(self).wf(),
            old(self).stats().cache_hits < usize::MAX,
            old(self).stats().cache_misses < usize::MAX,
        ensures
            final(self).wf(),
            final(self).permissions() == old(self).permissions(),
            final(self).segments() == old(self).segments(),
            final(self).pages() == old(self).pages(),
            match r {
                Ok(bytes) => old(self).read_result(addr, size) == Ok::<Seq<u8>, MemoryError>(bytes@),
                Err(e) => old(self).read_result(addr, size) == Err::<Seq<u8>, MemoryError>(e),
            },
            final(self).cache() == old(self).cache_after_read(addr, size),
            final(self).stats() == old(self).stats_after_read(addr),
            match old(self).cache().found(addr.spec_key()) {
                Some(cached) => {
                    &&& r matches Ok(bytes) && bytes@ == cached
                    &&& final(self).cache() == old(self).cache().touched(addr.spec_key())
                    &&& final(self).stats() == (MemoryStats {
                        cache_hits: (old(self).stats().cache_hits + 1) as usize,
                        ..old(self).stats()
                    })
                },
                None => {
                    &&& final(self).stats() == (MemoryStats {
                        cache_misses: (old(self).stats().cache_misses + 1) as usize,
                        ..old(self).stats()
                    })
                    &&& match r {
                        Ok(bytes) => {
                            &&& old(self).permissions().contains_key(addr.spec_key())
                            &&& old(self).permissions()[addr.spec_key()].allows(Permission::Read)
                            &&& old(self).pages().pages.contains_key(addr.page_id)
                            &&& bytes@ == old(self).pages().pages[addr.page_id].data.subrange(
                                addr.offset as int,
                                addr.offset + size,
                            )
                            &&& final(self).cache() == old(self).cache().touched(
                                addr.spec_key(),
                            ).with(addr.spec_key(), bytes@)
                        },
                        Err(e) => final(self).cache() == old(self).cache().touched(addr.spec_key())
                            && (if old(self).permissions().contains_key(addr.spec_key())
                                && old(self).permissions()[addr.spec_key()].allows(Permission::Read) {
                            e == MemoryError::PageFault(addr.page_id as usize)
                                && !(old(self).pages().pages.contains_key(addr.page_id)
                                && old(self).pages().pages[addr.page_id].flags.present
                                && crate::memory::page_table::in_page(
                                old(self).pages().page_size,
                                addr.offset as usize,
                                size as int,
                            ))
                        } else {
                            e == MemoryError::PermissionDenied(addr.segment_id as usize)
                        }),
                    }
                },
            },
    {
        match self.cache.get(addr.key()) {
            Some(data) => {
                self.stats.cache_hits += 1;
                return Ok(data);
            },
            None => {},
        }
        self.stats.cache_misses += 1;
        match self.check_permissions(&addr, Permission::Read) {
            Ok(()) => {},
            Err(e) => { return Err(e); },
        }
        let data = match self.page_table.read(addr.page_id, addr.offset as usize, size) {
            Ok(data) => data,
            Err(e) => { return Err(e); },
        };
        self.cache.insert(addr.key(), crate::vm::value::clone_bytes(&data));
        Ok(data)
    }

    /// Gives up the segment, the page and the permissions of `addr`. An
    /// address whose segment does not exist is a segment fault, and nothing
    /// changes.
    pub fn deallocate(&mut self, addr: MemoryAddress) -> (r: Result<(), MemoryError>)
        requires
            old(self).wf(),
            old(self).stats().total_deallocations < usize::MAX,
        ensures
            final(self).wf(),
            final(self).cache() == old(self).cache(),
            match r {
                Ok(()) => {
                    &&& addr.segment_id < old(self).segments().len()
                    &&& final(self).segments() == old(self).segments().remove(
                        addr.segment_id as int,
                    )
                    &&& final(self).permissions() == old(self).permissions().remove(addr.spec_key())
                    &&& final(self).pages() == (if old(self).pages().pages.contains_key(
                        addr.page_id,
                    ) {
                        PageTableView {
                            pages: old(self).pages().pages.remove(addr.page_id),
                            free_pages: old(self).pages().free_pages.push(addr.page_id),
                            ..old(self).pages()
                        }
                    } else {
                        old(self).pages()
                    })
                    &&& final(self).stats() == (MemoryStats {
                        total_deallocations: (old(self).stats().total_deallocations + 1) as usize,
                        ..old(self).stats()
                    })
                },
                Err(e) => e == MemoryError::SegmentFault(addr.segment_id as usize)
                    && addr.segment_id >= old(self).segments().len() && final(self).segments()
                    == old(self).segments() && final(self).permissions() == old(self).permissions()
                        && final(self).pages() == old(self).pages() && final(self).stats()
                    == old(self).stats(),
            },
    {
        if addr.segment_id as usize >= self.segments.len() {
            return Err(MemoryError::SegmentFault(addr.segment_id as usize));
        }
        self.segments.remove(addr.segment_id as usize);
        assert(self.segments() =~= old(self).segments().remove(addr.segment_id as int));
        self.page_table.free_page(addr.page_id);
        self.permissions.remove(&addr.key());
        self.stats.total_deallocations += 1;
        Ok(())
    }

    /// Allocates a segment of `size` bytes with the pages it needs, and
    /// returns the address of its first byte, for which the default
    /// permissions are set. Before that the collector runs where the
    /// segments have reached its threshold. Where the segment cannot be
    /// made, the pages are of no size, or the page numbers run out, the
    /// manager is out of memory.
    pub fn allocate(&mut self, size: usize, segment_type: SegmentType) -> (r: Result<
        MemoryAddress,
        MemoryError,
    >)
        requires
            old(self).wf(),
            old(self).stats().total_allocations < usize::MAX,
            old(self).collector().spec_stats().collections < usize::MAX,
            old(self).collector().spec_stats().freed_segments + old(self).segments().len()
                <= usize::MAX,
            old(self).collector().spec_stats().freed_pages + old(self).segments().len()
                <= usize::MAX,
        ensures
            final(self).wf(),
            final(self).cache() == old(self).cache(),
            final(self).pages().page_size == old(self).pages().page_size,
            match r {
                Ok(addr) => {
                    let kept = if total_size(old(self).segments())
                        >= old(self).collector().spec_threshold() {
                        survivors(old(self).segments())
                    } else {
                        old(self).segments()
                    };
                    &&& size > 0 && old(self).pages().page_size > 0
                    &&& crate::memory::segment::growth_limit(segment_type, size) is Some
                    &&& final(self).segments().len() == kept.len() + 1
                    &&& final(self).segments().drop_last() == kept
                    &&& final(self).segments().last().size == size
                    &&& final(self).segments().last().segment_type == segment_type
                    &&& addr.segment_id == kept.len() as u32
                    &&& addr.offset == 0
                    &&& addr.page_id == (if old(self).pages().free_pages.len() > 0 {
                        old(self).pages().free_pages.last()
                    } else {
                        old(self).pages().next_page_id
                    })
                    &&& final(self).pages().pages.contains_key(addr.page_id)
                    &&& allocations(old(self).pages(), pages_for(size, old(self).pages().page_size))
                        == Some(final(self).pages())
                    &&& final(self).permissions() == old(self).permissions().insert(
                        addr.spec_key(),
                        AccessPermissions::read_write_spec(),
                    )
                    &&& final(self).stats() == (MemoryStats {
                        total_allocations: (old(self).stats().total_allocations + 1) as usize,
                        ..old(self).stats()
                    })
                },
                Err(e) => e == MemoryError::OutOfMemory && final(self).permissions()
                    == old(self).permissions() && final(self).stats() == old(self).stats() && (size
                    == 0
                    || crate::memory::segment::growth_limit(segment_type, size) is None
                        || old(self).pages().page_size == 0 || allocations(
                    old(self).pages(),
                    pages_for(size, old(self).pages().page_size),
                ) is None),
            },
    {
        if self.should_collect_garbage() {
            self.gc.collect(&mut self.segments, &mut self.page_table);
        }
        let ghost kept = self.segments();
        let segment = match MemorySegment::new(segment_type, size) {
            Ok(segment) => segment,
            Err(e) => { return Err(e); },
        };
        let page_size = self.page_table.page_size();
        if page_size == 0 {
            return Err(MemoryError::OutOfMemory);
        }
        let segment_id = self.segments.len() as u32;
        self.segments.push(segment);
        assert(self.segments().drop_last() =~= kept);
        let extra: usize = if size % page_size == 0 {
            0
        } else {
            1
        };
        proof {
            if extra == 1 {
                assert(page_size >= 2) by {
                    if page_size == 1 {
                        assert(size % 1 == 0);
                    }
                }
                assert(size / page_size <= size / 2) by (nonlinear_arith)
                    requires
                        page_size >= 2,
                        size >= 0,
                ;
            }
        }
        let pages = size / page_size + extra;
        let ghost start = self.page_table@;
        assert(pages == pages_for(size, page_size)) by (nonlinear_arith)
            requires
                page_size > 0,
                pages == size / page_size + extra,
                extra == (if size % page_size == 0 { 0int } else { 1int }),
        ;
        assert(pages >= 1) by (nonlinear_arith)
            requires
                page_size > 0,
                size > 0,
                pages == size / page_size + extra,
                extra == (if size % page_size == 0 { 0int } else { 1int }),
        ;
        let first = match self.page_table.allocate_page() {
            Ok(id) => id,
            Err(e) => {
                assert(allocations(start, pages as nat) is None);
                return Err(e);
            },
        };
        assert(allocations(start, pages as nat) == allocations(
            self.page_table@,
            (pages - 1) as nat,
        ));
        let mut i: usize = 1;
        while i < pages
            invariant
                1 <= i <= pages,
                pages == pages_for(size, page_size),
                start == old(self).page_table@,
                allocations(start, pages as nat) == allocations(
                    self.page_table@,
                    (pages - i) as nat,
                ),
                self.page_table.wf(),
                self.gc.wf(),
                self.page_table@.page_size == page_size,
                page_size == old(self).page_table@.page_size,
                self.page_table@.pages.contains_key(first),
                self.cache@ == old(self).cache@,
                self.permissions@ == old(self).permissions@,
                self.stats == old(self).stats,
                self.segments().drop_last() == kept,
                self.segments().len() == kept.len() + 1,
                self.segments().last().size == size,
                self.segments().last().segment_type == segment_type,
            decreases pages - i,
        {
            let ghost before = self.page_table@;
            match self.page_table.allocate_page() {
                Ok(_) => {
                    assert(allocations(before, (pages - i) as nat) == allocations(
                        self.page_table@,
                        (pages - i - 1) as nat,
                    ));
                },
                Err(e) => {
                    assert(allocations(before, (pages - i) as nat) is None);
                    return Err(e);
                },
            }
            i += 1;
        }
        assert(allocations(self.page_table@, 0) == Some(self.page_table@));
        let addr = MemoryAddress { segment_id, page_id: first, offset: 0 };
        self.permissions.insert(addr.key(), AccessPermissions::default());
        self.stats.total_allocations += 1;
        Ok(addr)
    }
}

/// The sizes of more segments add up to no less.
pub proof fn lemma_total_size_grows(segments: Seq<SegmentView>, k: int)
    requires
        0 <= k <= segments.len(),
    ensures
        0 <= total_size(segments.take(k)) <= total_size(segments),
    decreases segments.len() - k,
{
    lemma_total_size_nonnegative(segments.take(k));
    if k < segments.len() {
        let t = segments.take(k + 1);
        assert(t.drop_last() =~= segments.take(k));
        lemma_total_size_grows(segments, k + 1);
    } else {
        assert(segments.take(k) =~= segments);
    }
}

/// Sizes add up to nothing negative.
pub proof fn lemma_total_size_nonnegative(segments: Seq<SegmentView>)
    ensures
        0 <= total_size(segments),
    decreases segments.len(),
{
    if segments.len() > 0 {
        lemma_total_size_nonnegative(segments.drop_last());
    }
}

} // verus!
