//! The page cache capability: what a cache of fixed-size pages offers.
//!
//! A page is addressed by the location of its object and by its page id,
//! the offset of its first byte divided by the page size. Every page but the
//! last one of an object holds exactly one page size of bytes.

use crate::buffer::{bytes_view, slice_bytes};
use crate::error::{Error, ErrorSource};
use bytes::Bytes;
use std::ops::Range;
use std::sync::Arc;
use vstd::prelude::*;

verus! {

/// What the backing store knows of an object.
#[derive(Debug, Clone)]
pub struct ObjectMeta {
    /// The object's location.
    pub location: String,
    /// When the object was last modified: whole seconds since the Unix epoch.
    pub last_modified_secs: i64,
    /// The nanoseconds that go with `last_modified_secs`.
    pub last_modified_nanos: u32,
    /// The object's size in bytes.
    pub size: usize,
    /// The entity tag that the store gave the object, if any.
    pub e_tag: Option<String>,
    /// The version that the store gave the object, if any.
    pub version: Option<String>,
}

/// [`ObjectMeta`] with its strings as sequences of characters.
pub ghost struct ObjectMetaView {
    pub location: Seq<char>,
    pub last_modified_secs: i64,
    pub last_modified_nanos: u32,
    pub size: usize,
    pub e_tag: Option<Seq<char>>,
    pub version: Option<Seq<char>>,
}

impl View for ObjectMeta {
    type V = ObjectMetaView;

    open spec fn view(&self) -> ObjectMetaView {
        ObjectMetaView {
            location: self.location@,
            last_modified_secs: self.last_modified_secs,
            last_modified_nanos: self.last_modified_nanos,
            size: self.size,
            e_tag: match self.e_tag {
                Some(tag) => Some(tag@),
                None => None,
            },
            version: match self.version {
                Some(version) => Some(version@),
                None => None,
            },
        }
    }
}

/// The key of a page: its object's location and its page id.
pub type PageKey = (Seq<char>, u32);

/// `failure` reports `cause` in its own kind, absence as absence and any
/// other failure as a generic one, and keeps `cause` as its source.
pub open spec fn reports(failure: Error, cause: Arc<Error>) -> bool {
    &&& (failure is NotFound) == (*cause is NotFound)
    &&& match failure {
        Error::NotFound { source, .. } => source == ErrorSource::Wrapped(cause),
        Error::Generic { source, .. } => source == ErrorSource::Wrapped(cause),
    }
}

/// A cache of fixed-size pages of objects, and of the objects' metadata.
///
/// The cache may drop an entry at any time: a lookup that finds nothing
/// says nothing about what was put. What a lookup does find is what was put
/// or loaded last under that key. So every operation leaves `pages` and
/// `heads` within what they were, but for the one entry it may add.
///
/// A cache can be handed to another thread and shared behind a lock.
pub trait PageCache: Sized + Send + Sync {
    /// The cache's invariant.
    spec fn wf(&self) -> bool;

    /// The size of each page, in bytes.
    spec fn page_size_spec(&self) -> usize;

    /// The capacity of the cache, in bytes.
    spec fn capacity_spec(&self) -> usize;

    /// The cached pages.
    spec fn pages(&self) -> Map<PageKey, Seq<u8>>;

    /// The cached metadata, by location.
    spec fn heads(&self) -> Map<Seq<char>, ObjectMetaView>;

    /// The size of each page, in bytes.
    fn page_size(&self) -> (n: usize)
        ensures
            n == self.page_size_spec(),
    ;

    /// The capacity of the cache, in bytes.
    fn capacity(&self) -> (n: usize)
        ensures
            n == self.capacity_spec(),
    ;

    /// The page `page_id` of `location`: the cached one, or else what
    /// `loader` returns, which is then cached. A failure of the loader is
    /// reported in its own kind and caches nothing.
    fn get_with<F: FnOnce() -> Result<Bytes, Error>>(
        &mut self,
        location: &str,
        page_id: u32,
        loader: F,
    ) -> (r: Result<Bytes, Error>)
        requires
            old(self).wf(),
            loader.requires(()),
        ensures
            final(self).wf(),
            final(self).page_size_spec() == old(self).page_size_spec(),
            final(self).capacity_spec() == old(self).capacity_spec(),
            final(self).heads().submap_of(old(self).heads()),
            match r {
                Ok(page) => {
                    &&& final(self).pages().submap_of(
                        old(self).pages().insert((location@, page_id), bytes_view(page)),
                    )
                    &&& holds_page(old(self).pages(), (location@, page_id), bytes_view(page))
                        || loads_page(loader, bytes_view(page))
                },
                Err(failure) => {
                    &&& final(self).pages().submap_of(old(self).pages())
                    &&& exists|cause: Arc<Error>| #[trigger]
                        loader.ensures((), Err(*cause)) && reports(failure, cause)
                },
            },
    ;

    /// As [`PageCache::get_with`], then the bytes `range` of the page.
    /// `range` must lie within the page size, and within the page itself.
    fn get_range_with<F: FnOnce() -> Result<Bytes, Error>>(
        &mut self,
        location: &str,
        page_id: u32,
        range: Range<usize>,
        loader: F,
    ) -> (r: Result<Bytes, Error>)
        requires
            old(self).wf(),
            loader.requires(()),
            range.start <= range.end <= old(self).page_size_spec(),
            old(self).pages().contains_key((location@, page_id)) ==> range.end <= old(
                self,
            ).pages()[(location@, page_id)].len(),
            forall|loaded: Bytes| #[trigger]
                loader.ensures((), Ok(loaded)) ==> range.end <= bytes_view(loaded).len(),
        ensures
            final(self).wf(),
            final(self).page_size_spec() == old(self).page_size_spec(),
            final(self).capacity_spec() == old(self).capacity_spec(),
            final(self).heads().submap_of(old(self).heads()),
            match r {
                Ok(part) => exists|page: Seq<u8>|
                    {
                        &&& final(self).pages().submap_of(
                            old(self).pages().insert((location@, page_id), page),
                        )
                        &&& holds_page(old(self).pages(), (location@, page_id), page)
                            || loads_page(loader, page)
                        &&& range.end <= page.len()
                        &&& bytes_view(part) == #[trigger] page.subrange(
                            range.start as int,
                            range.end as int,
                        )
                    },
                Err(failure) => {
                    &&& final(self).pages().submap_of(old(self).pages())
                    &&& exists|cause: Arc<Error>| #[trigger]
                        loader.ensures((), Err(*cause)) && reports(failure, cause)
                },
            },
    ;

    /// The cached page `page_id` of `location`, if the cache has it. Nothing
    /// is loaded.
    fn get(&mut self, location: &str, page_id: u32) -> (r: Option<Bytes>)
        requires
            old(self).wf(),
        ensures
            final(self).wf(),
            final(self).page_size_spec() == old(self).page_size_spec(),
            final(self).capacity_spec() == old(self).capacity_spec(),
            final(self).pages().submap_of(old(self).pages()),
            final(self).heads().submap_of(old(self).heads()),
            r matches Some(page) ==> holds_page(
                old(self).pages(),
                (location@, page_id),
                bytes_view(page),
            ),
    ;

    /// The bytes `range` of the cached page `page_id` of `location`, if the
    /// cache has the page and the page reaches that far.
    fn get_range(&mut self, location: &str, page_id: u32, range: Range<usize>) -> (r: Option<
        Bytes,
    >)
        requires
            old(self).wf(),
        ensures
            final(self).wf(),
            final(self).page_size_spec() == old(self).page_size_spec(),
            final(self).capacity_spec() == old(self).capacity_spec(),
            final(self).pages().submap_of(old(self).pages()),
            final(self).heads().submap_of(old(self).heads()),
            r matches Some(part) ==> {
                &&& old(self).pages().contains_key((location@, page_id))
                &&& range.start <= range.end <= old(self).pages()[(location@, page_id)].len()
                &&& bytes_view(part) == old(self).pages()[(location@, page_id)].subrange(
                    range.start as int,
                    range.end as int,
                )
            },
    ;

    /// Caches `data` as the page `page_id` of `location`, in place of what
    /// was cached there. `data` must not be longer than a page.
    fn put(&mut self, location: &str, page_id: u32, data: Bytes)
        requires
            old(self).wf(),
            bytes_view(data).len() <= old(self).page_size_spec(),
        ensures
            final(self).wf(),
            final(self).page_size_spec() == old(self).page_size_spec(),
            final(self).capacity_spec() == old(self).capacity_spec(),
            final(self).pages().submap_of(
                old(self).pages().insert((location@, page_id), bytes_view(data)),
            ),
            final(self).heads().submap_of(old(self).heads()),
    ;

    /// The metadata of `location`: the cached one, or else what `loader`
    /// returns, which is then cached. A failure of the loader is reported in
    /// its own kind and caches nothing.
    fn head<F: FnOnce() -> Result<ObjectMeta, Error>>(&mut self, location: &str, loader: F) -> (r:
        Result<ObjectMeta, Error>)
        requires
            old(self).wf(),
            loader.requires(()),
        ensures
            final(self).wf(),
            final(self).page_size_spec() == old(self).page_size_spec(),
            final(self).capacity_spec() == old(self).capacity_spec(),
            final(self).pages().submap_of(old(self).pages()),
            match r {
                Ok(meta) => {
                    &&& final(self).heads().submap_of(old(self).heads().insert(location@, meta@))
                    &&& holds_head(old(self).heads(), location@, meta@) || loads_head(
                        loader,
                        meta@,
                    )
                },
                Err(failure) => {
                    &&& final(self).heads().submap_of(old(self).heads())
                    &&& exists|cause: Arc<Error>| #[trigger]
                        loader.ensures((), Err(*cause)) && reports(failure, cause)
                },
            },
    ;

    /// The cached metadata of `location`, if the cache has it. Nothing is
    /// loaded.
    fn peek_head(&mut self, location: &str) -> (r: Option<ObjectMeta>)
        requires
            old(self).wf(),
        ensures
            final(self).wf(),
            final(self).page_size_spec() == old(self).page_size_spec(),
            final(self).capacity_spec() == old(self).capacity_spec(),
            final(self).pages().submap_of(old(self).pages()),
            final(self).heads().submap_of(old(self).heads()),
            r matches Some(meta) ==> holds_head(old(self).heads(), location@, meta@),
    ;

    /// Forgets what is cached of `location`: its pages and its metadata.
    /// What is cached of other locations stays.
    fn invalidate(&mut self, location: &str)
        requires
            old(self).wf(),
        ensures
            final(self).wf(),
            final(self).page_size_spec() == old(self).page_size_spec(),
            final(self).capacity_spec() == old(self).capacity_spec(),
            final(self).pages().submap_of(old(self).pages()),
            final(self).heads().submap_of(old(self).heads()),
            forgotten(final(self).pages(), final(self).heads(), location@),
            others_kept(
                old(self).pages(),
                final(self).pages(),
                old(self).heads(),
                final(self).heads(),
                location@,
            ),
    ;
}

/// The bytes `range` of a page that was looked up: the part, where there is
/// a page and the range lies within it; nothing, where there is no page,
/// where the range runs backwards, or where it ends after the page does.
pub fn part_of_page(page: Option<Bytes>, range: Range<usize>) -> (r: Option<Bytes>)
    ensures
        r is Some <==> (page matches Some(whole) && range.start <= range.end <= bytes_view(
            whole,
        ).len()),
        r matches Some(part) ==> page is Some && bytes_view(part) == bytes_view(
            page->Some_0,
        ).subrange(range.start as int, range.end as int),
{
    match page {
        Some(whole) => {
            if range.start <= range.end && range.end <= whole.len() {
                Some(slice_bytes(&whole, range.start, range.end))
            } else {
                None
            }
        },
        None => None,
    }
}

/// `pages` has `page` under `key`.
pub open spec fn holds_page(pages: Map<PageKey, Seq<u8>>, key: PageKey, page: Seq<u8>) -> bool {
    pages.contains_key(key) && pages[key] == page
}

/// `heads` has `meta` under `location`.
pub open spec fn holds_head(
    heads: Map<Seq<char>, ObjectMetaView>,
    location: Seq<char>,
    meta: ObjectMetaView,
) -> bool {
    heads.contains_key(location) && heads[location] == meta
}

/// `loader` can return a page that holds `page`.
pub open spec fn loads_page<F: FnOnce() -> Result<Bytes, Error>>(loader: F, page: Seq<u8>) -> bool {
    exists|loaded: Bytes| #[trigger] loader.ensures((), Ok(loaded)) && bytes_view(loaded) == page
}

/// `loader` can return metadata that reads as `meta`.
pub open spec fn loads_head<F: FnOnce() -> Result<ObjectMeta, Error>>(
    loader: F,
    meta: ObjectMetaView,
) -> bool {
    exists|loaded: ObjectMeta| #[trigger] loader.ensures((), Ok(loaded)) && loaded@ == meta
}

/// Nothing of `location` is cached: no page and no metadata.
pub open spec fn forgotten(
    pages: Map<PageKey, Seq<u8>>,
    heads: Map<Seq<char>, ObjectMetaView>,
    location: Seq<char>,
) -> bool {
    &&& forall|page_id: u32| !pages.contains_key((location, page_id))
    &&& !heads.contains_key(location)
}

/// What `before` had cached of every location but `location` is cached in
/// `after` too: the same pages and the same metadata.
pub open spec fn others_kept(
    before_pages: Map<PageKey, Seq<u8>>,
    after_pages: Map<PageKey, Seq<u8>>,
    before_heads: Map<Seq<char>, ObjectMetaView>,
    after_heads: Map<Seq<char>, ObjectMetaView>,
    location: Seq<char>,
) -> bool {
    &&& forall|key: PageKey|
        key.0 != location && #[trigger] before_pages.contains_key(key) ==> holds_page(
            after_pages,
            key,
            before_pages[key],
        )
    &&& forall|other: Seq<char>|
        other != location && #[trigger] before_heads.contains_key(other) ==> holds_head(
            after_heads,
            other,
            before_heads[other],
        )
}

} // verus!
