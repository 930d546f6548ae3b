//! The two `moka` caches behind the in-memory page cache.
//!
//! A `moka::sync::Cache` bounds what it holds by weight and drops what has
//! been idle for too long. It decides by itself which entries go and when,
//! by the clock: so no function here promises that an entry is still there.
//! What each one states is what `moka`'s source shows of every outcome:
//! an entry that is found is the one that was stored last under its key, and
//! a call stores at most the one entry that it was given.
//!
//! The handles are taken by `&mut`, though `moka` asks only for `&`: a call
//! may drop entries, and the contracts say so. Nothing here is proved.

use crate::buffer::bytes_view;
use crate::error::Error;
use crate::paging::{ObjectMeta, ObjectMetaView};
use bytes::Bytes;
use moka::sync::Cache;
use std::hash::RandomState;
use std::sync::Arc;
use std::time::Duration;
use vstd::prelude::*;

verus! {

/// `moka::sync::Cache`: a concurrent cache, bounded by weight and by idle
/// time.
#[verifier::external_type_specification]
#[verifier::external_body]
#[verifier::reject_recursive_types(K)]
#[verifier::reject_recursive_types(V)]
#[verifier::reject_recursive_types(S)]
pub struct ExCache<K, V, S>(Cache<K, V, S>);

/// The cache of pages, by location id and page id.
pub type PageStore = Cache<(u64, u32), Bytes, RandomState>;

/// The cache of metadata, by location id.
pub type MetaStore = Cache<u64, ObjectMeta, RandomState>;

/// The longest idle time that `moka` lets a cache be built with, in
/// seconds: a thousand years of 365 days.
pub const IDLE_SECS_LIMIT: u64 = 31_536_000_000;

/// An idle time that `moka` builds a cache with: a thousand years at most.
pub open spec fn idle_time_allowed(d: Duration) -> bool {
    duration_secs(d) < IDLE_SECS_LIMIT || (duration_secs(d) == IDLE_SECS_LIMIT
        && duration_subsec_nanos(d) == 0)
}

/// A page store's contents when it holds nothing.
pub open spec fn no_pages() -> Map<(u64, u32), Seq<u8>> {
    Map::empty()
}

/// A metadata store's contents when it holds nothing.
pub open spec fn no_metas() -> Map<u64, ObjectMetaView> {
    Map::empty()
}

/// The pages that a page store holds.
pub uninterp spec fn page_entries(store: PageStore) -> Map<(u64, u32), Seq<u8>>;

/// The metadata that a metadata store holds.
pub uninterp spec fn meta_entries(store: MetaStore) -> Map<u64, ObjectMetaView>;

/// The number of pages in a page store by the store's own count, as
/// `Cache::entry_count` returns it. The store brings its count up to date
/// when it does its bookkeeping, so between two such times the count may
/// differ from the number of pages held.
pub uninterp spec fn pages_counted(store: PageStore) -> u64;

/// The total weight of the pages in a page store by the store's own count,
/// as `Cache::weighted_size` returns it. It is brought up to date as the
/// number of pages is.
pub uninterp spec fn pages_weighed(store: PageStore) -> u64;

/// The number of entries in a metadata store by the store's own count, as
/// `Cache::entry_count` returns it.
pub uninterp spec fn metas_counted(store: MetaStore) -> u64;

/// The whole seconds of a duration, as `Duration::as_secs` returns them.
pub uninterp spec fn duration_secs(d: Duration) -> u64;

/// The part of a duration below a whole second, in nanoseconds, as
/// `Duration::subsec_nanos` returns it.
pub uninterp spec fn duration_subsec_nanos(d: Duration) -> u32;

/// `Duration::from_secs`: a duration of that many whole seconds, and no
/// more.
pub assume_specification[ Duration::from_secs ](secs: u64) -> (d: Duration)
    ensures
        duration_secs(d) == secs,
        duration_subsec_nanos(d) == 0,
;

/// `Duration::subsec_nanos`: the part below a whole second, in nanoseconds.
pub assume_specification[ Duration::subsec_nanos ](d: &Duration) -> (nanos: u32)
    ensures
        nanos == duration_subsec_nanos(*d),
;

/// `Duration::as_secs`: the whole seconds of the duration.
pub assume_specification[ Duration::as_secs ](d: &Duration) -> (secs: u64)
    ensures
        secs == duration_secs(*d),
;

/// The weight of a page in the page store: its length in bytes, or the
/// largest weight there is if the length is above that.
pub fn page_weight(page: &Bytes) -> (weight: u32)
    ensures
        weight == if bytes_view(*page).len() <= u32::MAX {
            bytes_view(*page).len() as int
        } else {
            u32::MAX as int
        },
{
    let len = page.len();
    if len <= u32::MAX as usize {
        len as u32
    } else {
        u32::MAX
    }
}

/// `Cache::builder()`, with `max_capacity`, `weigher` and `time_to_idle`
/// set, then `build()`: an empty cache that weighs each page with
/// [`page_weight`] and has counted nothing yet. `build` panics on an idle
/// time above a thousand years.
#[verifier::external_body]
pub(crate) fn build_page_store(max_weight: u64, time_to_idle: Duration) -> (store: PageStore)
    requires
        idle_time_allowed(time_to_idle),
    ensures
        page_entries(store) == no_pages(),
        pages_counted(store) == 0,
        pages_weighed(store) == 0,
{
    Cache::builder()
        .max_capacity(max_weight)
        .weigher(|_key: &(u64, u32), page: &Bytes| page_weight(page))
        .time_to_idle(time_to_idle)
        .build()
}

/// `Cache::builder()`, with `max_capacity` and `time_to_idle` set, then
/// `build()`: an empty cache in which every entry weighs 1 and which has
/// counted nothing yet. `build` panics on an idle time above a thousand
/// years.
#[verifier::external_body]
pub(crate) fn build_meta_store(max_entries: u64, time_to_idle: Duration) -> (store: MetaStore)
    requires
        idle_time_allowed(time_to_idle),
    ensures
        meta_entries(store) == no_metas(),
        metas_counted(store) == 0,
{
    Cache::builder().max_capacity(max_entries).time_to_idle(time_to_idle).build()
}

/// `Cache::get`: a clone of the page stored under `key`, if the store has
/// one that has not expired. The call may drop entries.
#[verifier::external_body]
pub(crate) fn find_page(store: &mut PageStore, key: (u64, u32)) -> (r: Option<Bytes>)
    ensures
        page_entries(*final(store)).submap_of(page_entries(*old(store))),
        r matches Some(page) ==> page_entries(*old(store)).contains_key(key) && page_entries(
            *old(store),
        )[key] == bytes_view(page),
{
    store.get(&key)
}

/// `Cache::insert`: stores `page` under `key`, in place of what was there.
/// The call may drop entries, the new one among them.
#[verifier::external_body]
pub(crate) fn store_page(store: &mut PageStore, key: (u64, u32), page: Bytes)
    ensures
        page_entries(*final(store)).submap_of(
            page_entries(*old(store)).insert(key, bytes_view(page)),
        ),
{
    store.insert(key, page)
}

/// `Cache::try_get_with`: a clone of the page stored under `key`; or, where
/// the store has none, what `loader` returns, which is stored if it is a
/// page and handed back behind an `Arc` if it is a failure. The call may
/// drop entries.
#[verifier::external_body]
pub(crate) fn load_page<F: FnOnce() -> Result<Bytes, Error>>(
    store: &mut PageStore,
    key: (u64, u32),
    loader: F,
) -> (r: Result<Bytes, Arc<Error>>)
    requires
        loader.requires(()),
    ensures
        match r {
            Ok(page) => {
                &&& page_entries(*final(store)).submap_of(
                    page_entries(*old(store)).insert(key, bytes_view(page)),
                )
                &&& (page_entries(*old(store)).contains_key(key) && page_entries(*old(store))[key]
                    == bytes_view(page)) || crate::paging::loads_page(loader, bytes_view(page))
            },
            Err(cause) => {
                &&& page_entries(*final(store)).submap_of(page_entries(*old(store)))
                &&& loader.ensures((), Err(*cause))
            },
        },
{
    store.try_get_with(key, loader)
}

/// `Cache::get`: a clone of the metadata stored under `id`, if the store
/// has one that has not expired. The call may drop entries.
#[verifier::external_body]
pub(crate) fn find_meta(store: &mut MetaStore, id: u64) -> (r: Option<ObjectMeta>)
    ensures
        meta_entries(*final(store)).submap_of(meta_entries(*old(store))),
        r matches Some(meta) ==> meta_entries(*old(store)).contains_key(id) && meta_entries(
            *old(store),
        )[id] == meta@,
{
    store.get(&id)
}

/// `Cache::try_get_with`: a clone of the metadata stored under `id`; or,
/// where the store has none, what `loader` returns, which is stored if it
/// is metadata and handed back behind an `Arc` if it is a failure. The call
/// may drop entries.
#[verifier::external_body]
pub(crate) fn load_meta<F: FnOnce() -> Result<ObjectMeta, Error>>(
    store: &mut MetaStore,
    id: u64,
    loader: F,
) -> (r: Result<ObjectMeta, Arc<Error>>)
    requires
        loader.requires(()),
    ensures
        match r {
            Ok(meta) => {
                &&& meta_entries(*final(store)).submap_of(meta_entries(*old(store)).insert(id, meta@))
                &&& (meta_entries(*old(store)).contains_key(id) && meta_entries(*old(store))[id]
                    == meta@) || crate::paging::loads_head(loader, meta@)
            },
            Err(cause) => {
                &&& meta_entries(*final(store)).submap_of(meta_entries(*old(store)))
                &&& loader.ensures((), Err(*cause))
            },
        },
{
    store.try_get_with(id, loader)
}

/// `Cache::run_pending_tasks`: does the bookkeeping that is due, which may
/// drop entries.
#[verifier::external_body]
pub(crate) fn settle_pages(store: &mut PageStore)
    ensures
        page_entries(*final(store)).submap_of(page_entries(*old(store))),
{
    store.run_pending_tasks()
}

/// `Cache::run_pending_tasks`: does the bookkeeping that is due, which may
/// drop entries.
#[verifier::external_body]
pub(crate) fn settle_metas(store: &mut MetaStore)
    ensures
        meta_entries(*final(store)).submap_of(meta_entries(*old(store))),
{
    store.run_pending_tasks()
}

/// `Cache::entry_count`: the number of pages that the store has last
/// counted. It reads the store's counter and changes nothing.
#[verifier::external_body]
pub(crate) fn count_pages(store: &PageStore) -> (n: u64)
    ensures
        n == pages_counted(*store),
{
    store.entry_count()
}

/// `Cache::entry_count`: the number of entries that the store has last
/// counted. It reads the store's counter and changes nothing.
#[verifier::external_body]
pub(crate) fn count_metas(store: &MetaStore) -> (n: u64)
    ensures
        n == metas_counted(*store),
{
    store.entry_count()
}

/// `Cache::weighted_size`: the total weight of the pages that the store
/// has last counted. It reads the store's counter and changes nothing.
#[verifier::external_body]
pub(crate) fn weigh_pages(store: &PageStore) -> (weight: u64)
    ensures
        weight == pages_weighed(*store),
{
    store.weighted_size()
}

} // verus!
