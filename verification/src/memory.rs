//! The page cache that keeps its pages in memory.
//!
//! Pages and metadata live in two bounded stores. Neither is keyed by the
//! location itself: each location gets a number when it is first used, and
//! the stores are keyed by that number. To forget a location is to forget
//! its number. What the stores still hold under the old number can no
//! longer be reached and is dropped by the stores in their own time; the
//! location gets a new number when it is used again, and no number is ever
//! given twice.

pub mod builder;
pub mod store;

pub use self::builder::InMemoryCacheBuilder;

use self::store::{
    build_meta_store, build_page_store, count_metas, count_pages, duration_secs,
    duration_subsec_nanos, find_meta, find_page, idle_time_allowed, load_meta, load_page,
    meta_entries, metas_counted, page_entries, pages_counted, pages_weighed, settle_metas,
    settle_pages, store_page, weigh_pages, MetaStore, PageStore,
};
use crate::buffer::{bytes_view, slice_bytes};
use crate::error::{
    head_load_failure, is_head_load_failure, is_page_load_failure, page_load_failure, Error,
};
use crate::paging::{
    holds_head, holds_page, part_of_page, ObjectMeta, ObjectMetaView, PageCache, PageKey,
};
use bytes::Bytes;
use std::ops::Range;
use std::sync::Arc;
use std::time::Duration;
use vstd::hash_map::StringHashMap;
use vstd::prelude::*;

verus! {

/// The page size of a cache that is built without one: 16 KiB.
pub const DEFAULT_PAGE_SIZE: usize = 16 * 1024;

/// The idle time, in seconds, after which a cache that is built without one
/// drops an entry: 30 minutes.
pub const DEFAULT_TIME_TO_IDLE_SECS: u64 = 60 * 30;

/// The number of objects whose metadata a cache holds at most.
pub const DEFAULT_METADATA_CACHE_SIZE: usize = 32 * 1024 * 1024;

/// The pages that can be reached: those stored under the number that
/// `lookup` has for their location.
pub open spec fn reachable_pages(
    lookup: Map<Seq<char>, u64>,
    stored: Map<(u64, u32), Seq<u8>>,
) -> Map<PageKey, Seq<u8>> {
    Map::new(
        |key: PageKey| lookup.contains_key(key.0) && stored.contains_key((lookup[key.0], key.1)),
        |key: PageKey| stored[(lookup[key.0], key.1)],
    )
}

/// The metadata that can be reached: that stored under the number that
/// `lookup` has for its location.
pub open spec fn reachable_heads(
    lookup: Map<Seq<char>, u64>,
    stored: Map<u64, ObjectMetaView>,
) -> Map<Seq<char>, ObjectMetaView> {
    Map::new(
        |location: Seq<char>| lookup.contains_key(location) && stored.contains_key(lookup[location]),
        |location: Seq<char>| stored[lookup[location]],
    )
}

/// No two locations of `lookup` have the same number, and every number in
/// it is below `next`.
pub open spec fn numbered(lookup: Map<Seq<char>, u64>, next: u64) -> bool {
    &&& forall|location: Seq<char>| #[trigger]
        lookup.contains_key(location) ==> lookup[location] < next
    &&& forall|a: Seq<char>, b: Seq<char>|
        #![trigger lookup[a], lookup[b]]
        lookup.contains_key(a) && lookup.contains_key(b) && lookup[a] == lookup[b] ==> a == b
}

/// A weight of pages in bytes, as far as a `usize` holds it.
pub open spec fn weight_in_bytes_spec(weight: u64) -> usize {
    if weight <= usize::MAX {
        weight as usize
    } else {
        usize::MAX
    }
}

/// A weight of pages in bytes, as far as a `usize` holds it: the weight, or
/// the largest `usize` if the weight is above that.
pub fn weight_in_bytes(weight: u64) -> (n: usize)
    ensures
        n == weight_in_bytes_spec(weight),
{
    if weight <= usize::MAX as u64 {
        weight as usize
    } else {
        usize::MAX
    }
}

/// A page cache in memory, bounded by the bytes it holds and by the time an
/// entry may stay idle.
pub struct InMemoryCache {
    /// The capacity, in bytes.
    capacity: usize,
    /// The size of each page, in bytes.
    page_size: usize,
    /// The time after which an idle entry is dropped.
    time_to_idle: Duration,
    /// The pages, by location number and page id.
    cache: PageStore,
    /// The metadata, by location number.
    metadata_cache: MetaStore,
    /// The number of each location in use.
    location_lookup: StringHashMap<u64>,
    /// The number that the next new location gets.
    next_location_id: u64,
}

impl InMemoryCache {
    /// The number of each location in use.
    pub closed spec fn lookup(&self) -> Map<Seq<char>, u64> {
        self.location_lookup@
    }

    /// The number that the next new location gets.
    pub closed spec fn next_id(&self) -> u64 {
        self.next_location_id
    }

    /// The time after which an idle entry is dropped.
    pub closed spec fn time_to_idle_spec(&self) -> Duration {
        self.time_to_idle
    }

    /// The pages that the page store holds, reachable or not.
    pub closed spec fn stored_pages(&self) -> Map<(u64, u32), Seq<u8>> {
        page_entries(self.cache)
    }

    /// The metadata that the metadata store holds, reachable or not.
    pub closed spec fn stored_heads(&self) -> Map<u64, ObjectMetaView> {
        meta_entries(self.metadata_cache)
    }

    /// The number of pages by the page store's own count.
    pub closed spec fn counted_pages(&self) -> u64 {
        pages_counted(self.cache)
    }

    /// The total weight of the pages by the page store's own count.
    pub closed spec fn weighed(&self) -> u64 {
        pages_weighed(self.cache)
    }

    /// The number of objects with metadata by the metadata store's own
    /// count.
    pub closed spec fn counted_heads(&self) -> u64 {
        metas_counted(self.metadata_cache)
    }

    /// The cache's invariant: the locations in use have different numbers,
    /// and no number at or above the next one is in use or in a store.
    pub open spec fn inv(&self) -> bool {
        &&& numbered(self.lookup(), self.next_id())
        &&& forall|key: (u64, u32)| #[trigger]
            self.stored_pages().contains_key(key) ==> key.0 < self.next_id()
        &&& forall|id: u64| #[trigger] self.stored_heads().contains_key(id) ==> id < self.next_id()
    }

    /// The page store is as it was in `before`: it holds the same pages
    /// and its own counts are the same.
    pub open spec fn page_store_kept(&self, before: &Self) -> bool {
        &&& self.stored_pages() == before.stored_pages()
        &&& self.counted_pages() == before.counted_pages()
        &&& self.weighed() == before.weighed()
    }

    /// The metadata store is as it was in `before`: it holds the same
    /// metadata and its own count is the same.
    pub open spec fn meta_store_kept(&self, before: &Self) -> bool {
        &&& self.stored_heads() == before.stored_heads()
        &&& self.counted_heads() == before.counted_heads()
    }

    /// Two states of a cache with the same settings, the later of which
    /// has given out no fewer numbers.
    pub open spec fn follows(&self, before: &Self) -> bool {
        &&& self.page_size_spec() == before.page_size_spec()
        &&& self.capacity_spec() == before.capacity_spec()
        &&& self.time_to_idle_spec() == before.time_to_idle_spec()
        &&& self.next_id() >= before.next_id()
    }

    /// What using `location` does to the numbering that `before` had: a
    /// location in use keeps its number; a new one gets the next number, if
    /// there is one left.
    pub open spec fn interned(&self, before: &Self, location: Seq<char>) -> bool {
        if before.lookup().contains_key(location) || before.next_id() == u64::MAX {
            &&& self.lookup() == before.lookup()
            &&& self.next_id() == before.next_id()
        } else {
            &&& self.lookup() == before.lookup().insert(location, before.next_id())
            &&& self.next_id() == before.next_id() + 1
        }
    }

    /// A builder for a cache of `capacity_bytes` bytes.
    #[must_use]
    pub fn builder(capacity_bytes: usize) -> (r: InMemoryCacheBuilder)
        ensures
            r.capacity_spec() == capacity_bytes,
            r.is_default(),
    {
        InMemoryCacheBuilder::new(capacity_bytes)
    }

    /// An empty cache of `capacity_bytes` bytes in pages of `page_size`
    /// bytes, which drops what has been idle for 30 minutes.
    pub fn new(capacity_bytes: usize, page_size: usize) -> (r: Self)
        ensures
            r.wf(),
            r.page_size_spec() == page_size,
            r.capacity_spec() == capacity_bytes,
            duration_secs(r.time_to_idle_spec()) == DEFAULT_TIME_TO_IDLE_SECS,
            duration_subsec_nanos(r.time_to_idle_spec()) == 0,
            r.is_empty(),
    {
        Self::with_params(
            capacity_bytes,
            page_size,
            Duration::from_secs(DEFAULT_TIME_TO_IDLE_SECS),
        )
    }

    /// The cache holds nothing, has counted nothing and has given out no
    /// number.
    pub open spec fn is_empty(&self) -> bool {
        &&& self.lookup() == Map::<Seq<char>, u64>::empty()
        &&& self.next_id() == 0
        &&& self.stored_pages() == self::store::no_pages()
        &&& self.stored_heads() == self::store::no_metas()
        &&& self.counted_pages() == 0
        &&& self.weighed() == 0
        &&& self.counted_heads() == 0
    }

    /// An empty cache of `capacity` bytes in pages of `page_size` bytes,
    /// which drops what has been idle for `time_to_idle`. The idle time
    /// must be a thousand years at most.
    pub fn with_params(capacity: usize, page_size: usize, time_to_idle: Duration) -> (r: Self)
        requires
            idle_time_allowed(time_to_idle),
        ensures
            r.wf(),
            r.page_size_spec() == page_size,
            r.capacity_spec() == capacity,
            r.time_to_idle_spec() == time_to_idle,
            r.is_empty(),
    {
        let cache = build_page_store(capacity as u64, time_to_idle);
        let metadata_cache = build_meta_store(DEFAULT_METADATA_CACHE_SIZE as u64, time_to_idle);
        InMemoryCache {
            capacity,
            page_size,
            time_to_idle,
            cache,
            metadata_cache,
            location_lookup: StringHashMap::new(),
            next_location_id: 0,
        }
    }

    /// The number of `location`: the one it has, or else the next one,
    /// which it then keeps. Once every number has been given out, a new
    /// location gets none.
    pub fn location_id(&mut self, location: &str) -> (id: Option<u64>)
        requires
            old(self).wf(),
        ensures
            final(self).wf(),
            final(self).follows(old(self)),
            final(self).interned(old(self), location@),
            final(self).page_store_kept(old(self)),
            final(self).meta_store_kept(old(self)),
            final(self).pages() == old(self).pages(),
            final(self).heads() == old(self).heads(),
            match id {
                Some(id) => final(self).lookup().contains_key(location@) && final(self).lookup()[location@]
                    == id,
                None => !old(self).lookup().contains_key(location@) && old(self).next_id()
                    == u64::MAX,
            },
    {
        let found = match self.location_lookup.get(location) {
            Some(id) => Some(*id),
            None => None,
        };
        if found.is_some() {
            return found;
        }
        if self.next_location_id == u64::MAX {
            return None;
        }
        let id = self.next_location_id;
        self.location_lookup.insert(location.to_owned(), id);
        self.next_location_id = id + 1;
        proof {
            assert(final(self).pages() =~= old(self).pages());
            assert(final(self).heads() =~= old(self).heads());
        }
        Some(id)
    }

    /// The time after which an idle entry is dropped.
    pub fn time_to_idle(&self) -> (d: Duration)
        ensures
            d == self.time_to_idle_spec(),
    {
        self.time_to_idle
    }

    /// The bytes that the cached pages take by the page store's own count:
    /// an estimate, which the store brings up to date when it does its
    /// bookkeeping. A count above the largest `usize` is given as that.
    pub fn size(&self) -> (n: usize)
        ensures
            n == weight_in_bytes_spec(self.weighed()),
    {
        weight_in_bytes(weigh_pages(&self.cache))
    }

    /// Lets the stores do the bookkeeping that is due. Entries over the
    /// capacity, and entries that have been idle for too long, are dropped
    /// then at the latest.
    pub fn run_pending_tasks(&mut self)
        requires
            old(self).wf(),
        ensures
            final(self).wf(),
            final(self).follows(old(self)),
            final(self).lookup() == old(self).lookup(),
            final(self).next_id() == old(self).next_id(),
            final(self).pages().submap_of(old(self).pages()),
            final(self).heads().submap_of(old(self).heads()),
    {
        settle_pages(&mut self.cache);
        settle_metas(&mut self.metadata_cache);
        proof {
            lemma_dropped_pages(self.lookup(), old(self).stored_pages(), self.stored_pages());
            lemma_dropped_heads(self.lookup(), old(self).stored_heads(), self.stored_heads());
        }
    }

    /// The number of pages held by the page store's own count: an
    /// estimate, which the store brings up to date when it does its
    /// bookkeeping.
    pub fn entry_count(&self) -> (n: u64)
        ensures
            n == self.counted_pages(),
    {
        count_pages(&self.cache)
    }

    /// The number of objects whose metadata is held by the metadata store's
    /// own count: an estimate, which the store brings up to date when it
    /// does its bookkeeping.
    pub fn metadata_entry_count(&self) -> (n: u64)
        ensures
            n == self.counted_heads(),
    {
        count_metas(&self.metadata_cache)
    }

    /// The numbers in use are those of different locations, and each is
    /// below the next number: so a number that is given out was never
    /// given before.
    pub proof fn lemma_numbers_are_fresh(&self)
        requires
            self.wf(),
        ensures
            numbered(self.lookup(), self.next_id()),
    {
    }
}

impl PageCache for InMemoryCache {
    open spec fn wf(&self) -> bool {
        self.inv()
    }

    closed spec fn page_size_spec(&self) -> usize {
        self.page_size
    }

    closed spec fn capacity_spec(&self) -> usize {
        self.capacity
    }

    open spec fn pages(&self) -> Map<PageKey, Seq<u8>> {
        reachable_pages(self.lookup(), self.stored_pages())
    }

    open spec fn heads(&self) -> Map<Seq<char>, ObjectMetaView> {
        reachable_heads(self.lookup(), self.stored_heads())
    }

    fn page_size(&self) -> (n: usize) {
        self.page_size
    }

    fn capacity(&self) -> (n: usize) {
        self.capacity
    }

    fn get_with<F: FnOnce() -> Result<Bytes, Error>>(
        &mut self,
        location: &str,
        page_id: u32,
        loader: F,
    ) -> (r: Result<Bytes, Error>)
        ensures
            final(self).follows(old(self)),
            final(self).interned(old(self), location@),
            final(self).meta_store_kept(old(self)),
            r matches Err(failure) ==> exists|cause: Arc<Error>| #[trigger]
                loader.ensures((), Err(*cause)) && is_page_load_failure(failure, location@, cause),
    {
        match self.location_id(location) {
            Some(id) => {
                let ghost stored = self.stored_pages();
                match load_page(&mut self.cache, (id, page_id), loader) {
                    Ok(page) => {
                        proof {
                            lemma_stored_page(
                                self.lookup(),
                                stored,
                                self.stored_pages(),
                                location@,
                                page_id,
                                bytes_view(page),
                                self.next_id(),
                            );
                        }
                        Ok(page)
                    },
                    Err(cause) => {
                        proof {
                            lemma_dropped_pages(self.lookup(), stored, self.stored_pages());
                        }
                        Err(page_load_failure(location, cause))
                    },
                }
            },
            None => match loader() {
                Ok(page) => {
                    Ok(page)
                },
                Err(failure) => {
                    let cause = Arc::new(failure);
                    Err(page_load_failure(location, cause))
                },
            },
        }
    }

    fn get_range_with<F: FnOnce() -> Result<Bytes, Error>>(
        &mut self,
        location: &str,
        page_id: u32,
        range: Range<usize>,
        loader: F,
    ) -> (r: Result<Bytes, Error>)
        ensures
            final(self).follows(old(self)),
            final(self).interned(old(self), location@),
            final(self).meta_store_kept(old(self)),
            r matches Err(failure) ==> exists|cause: Arc<Error>| #[trigger]
                loader.ensures((), Err(*cause)) && is_page_load_failure(failure, location@, cause),
    {
        match self.get_with(location, page_id, loader) {
            Ok(page) => {
                let part = slice_bytes(&page, range.start, range.end);
                assert(bytes_view(part) == bytes_view(page).subrange(
                    range.start as int,
                    range.end as int,
                ));
                Ok(part)
            },
            Err(failure) => Err(failure),
        }
    }

    fn get(&mut self, location: &str, page_id: u32) -> (r: Option<Bytes>)
        ensures
            final(self).follows(old(self)),
            final(self).interned(old(self), location@),
            final(self).meta_store_kept(old(self)),
    {
        match self.location_id(location) {
            Some(id) => {
                let ghost stored = self.stored_pages();
                let found = find_page(&mut self.cache, (id, page_id));
                proof {
                    lemma_dropped_pages(self.lookup(), stored, self.stored_pages());
                }
                found
            },
            None => None,
        }
    }

    fn get_range(&mut self, location: &str, page_id: u32, range: Range<usize>) -> (r: Option<
        Bytes,
    >)
        ensures
            final(self).follows(old(self)),
            final(self).interned(old(self), location@),
            final(self).meta_store_kept(old(self)),
    {
        part_of_page(self.get(location, page_id), range)
    }

    fn put(&mut self, location: &str, page_id: u32, data: Bytes)
        ensures
            final(self).follows(old(self)),
            final(self).interned(old(self), location@),
            final(self).meta_store_kept(old(self)),
    {
        match self.location_id(location) {
            Some(id) => {
                let ghost stored = self.stored_pages();
                let ghost page = bytes_view(data);
                store_page(&mut self.cache, (id, page_id), data);
                proof {
                    lemma_stored_page(
                        self.lookup(),
                        stored,
                        self.stored_pages(),
                        location@,
                        page_id,
                        page,
                        self.next_id(),
                    );
                }
            },
            None => {},
        }
    }

    fn head<F: FnOnce() -> Result<ObjectMeta, Error>>(&mut self, location: &str, loader: F) -> (r:
        Result<ObjectMeta, Error>)
        ensures
            final(self).follows(old(self)),
            final(self).interned(old(self), location@),
            final(self).page_store_kept(old(self)),
            r matches Err(failure) ==> exists|cause: Arc<Error>| #[trigger]
                loader.ensures((), Err(*cause)) && is_head_load_failure(failure, cause),
    {
        match self.location_id(location) {
            Some(id) => {
                let ghost stored = self.stored_heads();
                match load_meta(&mut self.metadata_cache, id, loader) {
                    Ok(meta) => {
                        proof {
                            lemma_stored_head(
                                self.lookup(),
                                stored,
                                self.stored_heads(),
                                location@,
                                meta@,
                                self.next_id(),
                            );
                        }
                        Ok(meta)
                    },
                    Err(cause) => {
                        proof {
                            lemma_dropped_heads(self.lookup(), stored, self.stored_heads());
                        }
                        Err(head_load_failure(cause))
                    },
                }
            },
            None => match loader() {
                Ok(meta) => {
                    Ok(meta)
                },
                Err(failure) => {
                    let cause = Arc::new(failure);
                    Err(head_load_failure(cause))
                },
            },
        }
    }

    fn peek_head(&mut self, location: &str) -> (r: Option<ObjectMeta>)
        ensures
            final(self).follows(old(self)),
            final(self).interned(old(self), location@),
            final(self).page_store_kept(old(self)),
    {
        match self.location_id(location) {
            Some(id) => {
                let ghost stored = self.stored_heads();
                let found = find_meta(&mut self.metadata_cache, id);
                proof {
                    lemma_dropped_heads(self.lookup(), stored, self.stored_heads());
                }
                found
            },
            None => None,
        }
    }

    /// Forgets the number of `location`, and with it all that is cached of
    /// it. The stores are not searched: what they hold under the old number
    /// stays there, out of reach, until they drop it.
    fn invalidate(&mut self, location: &str)
        ensures
            final(self).follows(old(self)),
            final(self).next_id() == old(self).next_id(),
            final(self).lookup() == old(self).lookup().remove(location@),
            final(self).page_store_kept(old(self)),
            final(self).meta_store_kept(old(self)),
    {
        self.location_lookup.remove(location);
        proof {
            assert(self.page_store_kept(old(self)));
            assert(self.meta_store_kept(old(self)));
        }
    }
}

/// Where a store has only dropped pages, no page has become reachable.
proof fn lemma_dropped_pages(
    lookup: Map<Seq<char>, u64>,
    before: Map<(u64, u32), Seq<u8>>,
    after: Map<(u64, u32), Seq<u8>>,
)
    requires
        after.submap_of(before),
    ensures
        reachable_pages(lookup, after).submap_of(reachable_pages(lookup, before)),
        forall|key: (u64, u32)| #[trigger] after.contains_key(key) ==> before.contains_key(key),
{
}

/// Where a store has only dropped metadata, none has become reachable.
proof fn lemma_dropped_heads(
    lookup: Map<Seq<char>, u64>,
    before: Map<u64, ObjectMetaView>,
    after: Map<u64, ObjectMetaView>,
)
    requires
        after.submap_of(before),
    ensures
        reachable_heads(lookup, after).submap_of(reachable_heads(lookup, before)),
        forall|id: u64| #[trigger] after.contains_key(id) ==> before.contains_key(id),
{
}

/// Where a store has taken at most the page `page` under the number of
/// `location`, at most that page of `location` has become reachable.
proof fn lemma_stored_page(
    lookup: Map<Seq<char>, u64>,
    before: Map<(u64, u32), Seq<u8>>,
    after: Map<(u64, u32), Seq<u8>>,
    location: Seq<char>,
    page_id: u32,
    page: Seq<u8>,
    next: u64,
)
    requires
        numbered(lookup, next),
        lookup.contains_key(location),
        after.submap_of(before.insert((lookup[location], page_id), page)),
    ensures
        reachable_pages(lookup, after).submap_of(
            reachable_pages(lookup, before).insert((location, page_id), page),
        ),
        before.contains_key((lookup[location], page_id)) && before[(lookup[location], page_id)]
            == page ==> holds_page(reachable_pages(lookup, before), (location, page_id), page),
        forall|key: (u64, u32)| #[trigger]
            after.contains_key(key) ==> before.contains_key(key) || key.0 == lookup[location],
{
    let wider = reachable_pages(lookup, before).insert((location, page_id), page);
    assert forall|key: PageKey| #[trigger]
        reachable_pages(lookup, after).dom().contains(key) implies wider.dom().contains(key)
        && reachable_pages(lookup, after)[key] == wider[key] by {
        let stored_key = (lookup[key.0], key.1);
        assert(before.insert((lookup[location], page_id), page).dom().contains(stored_key));
    }
    assert forall|key: (u64, u32)| #[trigger] after.contains_key(key) implies before.contains_key(
        key,
    ) || key.0 == lookup[location] by {
        assert(before.insert((lookup[location], page_id), page).dom().contains(key));
    }
}

/// Where a store has taken at most the metadata `meta` under the number of
/// `location`, at most the metadata of `location` has become reachable.
proof fn lemma_stored_head(
    lookup: Map<Seq<char>, u64>,
    before: Map<u64, ObjectMetaView>,
    after: Map<u64, ObjectMetaView>,
    location: Seq<char>,
    meta: ObjectMetaView,
    next: u64,
)
    requires
        numbered(lookup, next),
        lookup.contains_key(location),
        after.submap_of(before.insert(lookup[location], meta)),
    ensures
        reachable_heads(lookup, after).submap_of(
            reachable_heads(lookup, before).insert(location, meta),
        ),
        before.contains_key(lookup[location]) && before[lookup[location]] == meta ==> holds_head(
            reachable_heads(lookup, before),
            location,
            meta,
        ),
        forall|id: u64| #[trigger]
            after.contains_key(id) ==> before.contains_key(id) || id == lookup[location],
{
    let wider = reachable_heads(lookup, before).insert(location, meta);
    assert forall|other: Seq<char>| #[trigger]
        reachable_heads(lookup, after).dom().contains(other) implies wider.dom().contains(other)
        && reachable_heads(lookup, after)[other] == wider[other] by {
        assert(before.insert(lookup[location], meta).dom().contains(lookup[other]));
    }
    assert forall|id: u64| #[trigger] after.contains_key(id) implies before.contains_key(id) || id
        == lookup[location] by {
        assert(before.insert(lookup[location], meta).dom().contains(id));
    }
}

} // verus!
