//! Reading through a page cache.
//!
//! A read of a byte range goes in steps, and the backing store is asked
//! between them by whoever drives the read:
//!
//! 1. the object's size is taken from its metadata ([`ReadThroughCache::head`]);
//! 2. [`ReadThroughCache::plan_range`] cuts the range into pages and looks
//!    each one up in the cache;
//! 3. the pages that the cache did not have ([`ReadPlan::missed`]) are
//!    fetched from the backing store, all in one request;
//! 4. [`ReadThroughCache::finish_range`] puts the bytes together in page
//!    order and caches the fetched pages.
//!
//! A write goes to the backing store only after
//! [`ReadThroughCache::prepare_write`] has made the cache forget the
//! location that is written.
//!
//! The steps of a read are not one step. A read that was planned before a
//! write to its location was prepared, and is finished after, returns bytes
//! from before the write and caches the pages it fetched. Such pages stay
//! until the cache drops them or forgets the location again.

use crate::buffer::{append_bytes, bytes_mut_view, bytes_view, slice_bytes};
use crate::coherence::{
    coherent, fetch_tells, head_tells, lemma_coherent_submap, lemma_sized_insert,
    lemma_sized_submap, sized,
};
use crate::error::{Error, ErrorSource};
use crate::layout::{lemma_page_is, lemma_page_of, ReadRequest};
use crate::paging::{
    forgotten, holds_head, holds_page, loads_head, others_kept, reports, ObjectMeta,
    ObjectMetaView, PageCache, PageKey,
};
use std::sync::Arc;
use bytes::{Bytes, BytesMut};
use std::ops::Range;
use vstd::prelude::*;

verus! {

/// The store name that the read-through cache puts into a [`Error::Generic`].
pub const READ_THROUGH_CACHE: &'static str = "ReadThroughCache";

/// The message of the failure that [`ReadThroughCache::finish_range`]
/// reports when it is handed pages that its plan did not ask for.
pub const UNEXPECTED_PAGES: &'static str = "the fetched pages are not the pages that were asked for";

/// The message of the failure that [`ReadThroughCache::finish_range`]
/// reports when the bytes of a read are more than one buffer can hold.
pub const TOO_LONG: &'static str = "the bytes of the read are more than a buffer holds";

/// One page that a read touches.
#[derive(Debug)]
pub struct PageSlot {
    /// The page id.
    pub index: usize,
    /// The bytes of the object that make up the page.
    pub page: Range<usize>,
    /// The part of the page that the read takes, where the cache had it.
    pub cached: Option<Bytes>,
}

/// What a read found in the cache, page by page.
#[derive(Debug)]
pub struct ReadPlan {
    /// The read, and the layout of its pages.
    pub request: ReadRequest,
    /// The touched pages, in the order of their page ids.
    pub slots: Vec<PageSlot>,
}

/// What each of `fetched` holds.
pub open spec fn views(fetched: Seq<Bytes>) -> Seq<Seq<u8>> {
    Seq::new(fetched.len(), |j: int| bytes_view(fetched[j]))
}

impl ReadPlan {
    /// The `i`-th slot is the `i`-th page that the request touches, and a
    /// cached part has the length of the part that is taken.
    pub open spec fn slot_wf(&self, i: int) -> bool {
        let slot = self.slots@[i];
        &&& slot.index == self.request.page_index(i)
        &&& slot.page.start == self.request.page_offset(i)
        &&& slot.page.end == self.request.page_end(i)
        &&& slot.cached matches Some(part) ==> bytes_view(part).len() == self.request.part_end(i)
            - self.request.part_start(i)
    }

    /// The plan has one slot for each page that its request touches.
    pub open spec fn wf(&self) -> bool {
        &&& self.request.valid()
        &&& self.slots@.len() == self.request.page_count()
        &&& forall|i: int| 0 <= i < self.slots@.len() ==> #[trigger] self.slot_wf(i)
    }

    /// The part in the `i`-th slot, if there is one, is that part of the
    /// page that `pages` has for it.
    pub open spec fn hit_from(&self, i: int, pages: Map<PageKey, Seq<u8>>, location: Seq<char>) -> bool {
        let slot = self.slots@[i];
        let offset = self.request.page_offset(i);
        slot.cached matches Some(part) ==> {
            &&& slot.index <= u32::MAX
            &&& pages.contains_key((location, slot.index as u32))
            &&& self.request.part_end(i) - offset <= pages[(location, slot.index as u32)].len()
            &&& bytes_view(part) == pages[(location, slot.index as u32)].subrange(
                self.request.part_start(i) - offset,
                self.request.part_end(i) - offset,
            )
        }
    }

    /// The number of pages among the first `i` that the cache did not have.
    pub open spec fn misses_before(&self, i: int) -> int
        decreases i,
    {
        if i <= 0 {
            0
        } else if self.slots@[i - 1].cached is None {
            self.misses_before(i - 1) + 1
        } else {
            self.misses_before(i - 1)
        }
    }

    /// The number of pages that the cache did not have.
    pub open spec fn miss_count(&self) -> int {
        self.misses_before(self.slots@.len() as int)
    }

    /// The byte ranges of the pages among the first `i` that the cache did
    /// not have, in page order.
    pub open spec fn missed_before(&self, i: int) -> Seq<Range<usize>>
        decreases i,
    {
        if i <= 0 {
            Seq::empty()
        } else if self.slots@[i - 1].cached is None {
            self.missed_before(i - 1).push(self.slots@[i - 1].page)
        } else {
            self.missed_before(i - 1)
        }
    }

    /// The byte ranges of the pages that the cache did not have, in page
    /// order: what has to be fetched from the backing store.
    pub open spec fn missed_ranges(&self) -> Seq<Range<usize>> {
        self.missed_before(self.slots@.len() as int)
    }

    /// `fetched` answers the plan: one page for each page that the cache did
    /// not have, in page order, each as long as its page.
    pub open spec fn accepts(&self, fetched: Seq<Seq<u8>>) -> bool {
        &&& fetched.len() == self.miss_count()
        &&& forall|i: int|
            0 <= i < self.slots@.len() && self.slots@[i].cached is None ==> (
            #[trigger] fetched[self.misses_before(i)]).len() == self.slots@[i].page.end
                - self.slots@[i].page.start
    }

    /// The bytes that the read takes from its `i`-th page: the cached part,
    /// or else that part of the fetched page.
    pub open spec fn piece(&self, i: int, fetched: Seq<Seq<u8>>) -> Seq<u8> {
        match self.slots@[i].cached {
            Some(part) => bytes_view(part),
            None => fetched[self.misses_before(i)].subrange(
                self.request.part_start(i) - self.request.page_offset(i),
                self.request.part_end(i) - self.request.page_offset(i),
            ),
        }
    }

    /// The bytes that the read takes from its first `i` pages, in page order.
    pub open spec fn assembled_before(&self, i: int, fetched: Seq<Seq<u8>>) -> Seq<u8>
        decreases i,
    {
        if i <= 0 {
            Seq::empty()
        } else {
            self.assembled_before(i - 1, fetched) + self.piece(i - 1, fetched)
        }
    }

    /// The bytes that the read returns: what it takes from each of its
    /// pages, in page order.
    pub open spec fn assembled(&self, fetched: Seq<Seq<u8>>) -> Seq<u8> {
        self.assembled_before(self.slots@.len() as int, fetched)
    }

    /// No more pages were missed before a slot than there are slots before
    /// it, and a later slot has no fewer misses before it.
    pub proof fn lemma_misses_before(&self, i: int, k: int)
        requires
            0 <= i <= k,
        ensures
            0 <= self.misses_before(i) <= self.misses_before(k) <= k,
            self.misses_before(i) <= i,
            i < k && self.slots@[i].cached is None ==> self.misses_before(i) < self.misses_before(k),
            self.missed_before(i).len() == self.misses_before(i),
        decreases k,
    {
        if i < k {
            self.lemma_misses_before(i, k - 1);
        } else if i > 0 {
            self.lemma_misses_before(i - 1, i - 1);
        }
    }

    /// The range that is fetched for a missed page is the page's range, at
    /// the place that the page has among the missed ones.
    pub proof fn lemma_missed_ranges(&self, i: int)
        requires
            0 <= i < self.slots@.len(),
            self.slots@[i].cached is None,
        ensures
            0 <= self.misses_before(i) < self.miss_count(),
            self.missed_ranges().len() == self.miss_count(),
            self.missed_ranges()[self.misses_before(i)] == self.slots@[i].page,
    {
        self.lemma_misses_before(i, self.slots@.len() as int);
        self.lemma_misses_before(self.slots@.len() as int, self.slots@.len() as int);
        self.lemma_missed_prefix(i + 1, self.slots@.len() as int);
        self.lemma_misses_before(i, i);
    }

    /// The missed ranges of a longer run of slots begin with those of a
    /// shorter one.
    proof fn lemma_missed_prefix(&self, i: int, k: int)
        requires
            0 <= i <= k,
        ensures
            self.missed_before(i).len() <= self.missed_before(k).len(),
            forall|j: int|
                0 <= j < self.missed_before(i).len() ==> self.missed_before(k)[j]
                    == self.missed_before(i)[j],
        decreases k,
    {
        if i < k {
            self.lemma_missed_prefix(i, k - 1);
        }
    }

    /// The bytes taken from the first `i` pages reach from the request's
    /// start to the end of the part taken from the last of them.
    pub proof fn lemma_assembled_len(&self, i: int, fetched: Seq<Seq<u8>>)
        requires
            self.wf(),
            self.accepts(fetched),
            0 <= i <= self.slots@.len(),
        ensures
            i == 0 ==> self.assembled_before(i, fetched).len() == 0,
            i > 0 ==> self.assembled_before(i, fetched).len() == self.request.part_end(i - 1)
                - self.request.start,
        decreases i,
    {
        if i > 0 {
            self.lemma_assembled_len(i - 1, fetched);
            self.lemma_piece_len(i - 1, fetched);
            self.request.lemma_parts(i - 1);
        }
    }

    /// The bytes taken from a page are as many as the part of the page that
    /// the request covers.
    pub proof fn lemma_piece_len(&self, i: int, fetched: Seq<Seq<u8>>)
        requires
            self.wf(),
            self.accepts(fetched),
            0 <= i < self.slots@.len(),
        ensures
            self.piece(i, fetched).len() == self.request.part_end(i) - self.request.part_start(i),
    {
        self.request.lemma_parts(i);
        assert(self.slot_wf(i));
    }

    /// The `i`-th page was missed and fits the cache's page ids, `key` is
    /// its key at `location`, and `page` is what was fetched for it.
    pub open spec fn backfills_at(
        &self,
        i: int,
        location: Seq<char>,
        fetched: Seq<Seq<u8>>,
        key: PageKey,
        page: Seq<u8>,
    ) -> bool {
        &&& self.slots@[i].cached is None
        &&& self.slots@[i].index <= u32::MAX
        &&& key == (location, self.slots@[i].index as u32)
        &&& page == fetched[self.misses_before(i)]
    }

    /// `page` is what was fetched for one of the first `upto` pages, a
    /// missed one, and `key` is that page's key at `location`.
    pub open spec fn backfills(
        &self,
        upto: int,
        location: Seq<char>,
        fetched: Seq<Seq<u8>>,
        key: PageKey,
        page: Seq<u8>,
    ) -> bool {
        exists|i: int| 0 <= i < upto && #[trigger] self.backfills_at(i, location, fetched, key, page)
    }

    /// Every page of `after` was in `before` already, or is one that was
    /// fetched for one of the first `upto` pages of the plan.
    pub open spec fn backfilled(
        &self,
        upto: int,
        location: Seq<char>,
        fetched: Seq<Seq<u8>>,
        before: Map<PageKey, Seq<u8>>,
        after: Map<PageKey, Seq<u8>>,
    ) -> bool {
        forall|key: PageKey| #[trigger]
            after.contains_key(key) ==> holds_page(before, key, after[key]) || self.backfills(
                upto,
                location,
                fetched,
                key,
                after[key],
            )
    }

    /// Whether `fetched` answers the plan: one page for each page that the
    /// cache did not have, in page order, each as long as its page.
    pub fn answered_by(&self, fetched: &Vec<Bytes>) -> (ok: bool)
        ensures
            ok == self.accepts(views(fetched@)),
    {
        let ghost answer = views(fetched@);
        let mut i: usize = 0;
        let mut j: usize = 0;
        while i < self.slots.len()
            invariant
                0 <= i <= self.slots@.len(),
                answer == views(fetched@),
                j == self.misses_before(i as int),
                j <= fetched@.len(),
                forall|k: int|
                    0 <= k < i && self.slots@[k].cached is None ==> (
                    #[trigger] answer[self.misses_before(k)]).len() == self.slots@[k].page.end
                        - self.slots@[k].page.start,
            decreases self.slots@.len() - i,
        {
            if self.slots[i].cached.is_none() {
                proof {
                    self.lemma_misses_before(i + 1, self.slots@.len() as int);
                }
                if j >= fetched.len() {
                    return false;
                }
                let page = &self.slots[i].page;
                if page.end < page.start || fetched[j].len() != page.end - page.start {
                    assert(answer[self.misses_before(i as int)].len() != page.end - page.start);
                    return false;
                }
                j += 1;
            }
            i += 1;
        }
        j == fetched.len()
    }

    /// What has to be fetched from the backing store: the byte range of each
    /// page that the cache did not have, in page order.
    pub fn missed(&self) -> (ranges: Vec<Range<usize>>)
        ensures
            ranges@ == self.missed_ranges(),
    {
        let mut ranges: Vec<Range<usize>> = Vec::new();
        let mut i: usize = 0;
        while i < self.slots.len()
            invariant
                0 <= i <= self.slots@.len(),
                ranges@ == self.missed_before(i as int),
            decreases self.slots@.len() - i,
        {
            if self.slots[i].cached.is_none() {
                ranges.push(Range { start: self.slots[i].page.start, end: self.slots[i].page.end });
            }
            i += 1;
        }
        ranges
    }
}

/// A change to the backing store.
#[derive(Debug, Clone, Copy)]
pub enum WriteOp<'a> {
    /// The object at `location` is written.
    Put { location: &'a str },
    /// The object at `location` is written in several parts.
    PutMultipart { location: &'a str },
    /// The object at `location` is deleted.
    Delete { location: &'a str },
    /// The object at `from` is copied to `to`.
    Copy { from: &'a str, to: &'a str },
    /// The object at `from` is copied to `to`, unless `to` exists.
    CopyIfNotExists { from: &'a str, to: &'a str },
}

impl<'a> WriteOp<'a> {
    /// The location whose object the change touches: the one that is
    /// written or deleted, or the one that is copied to.
    pub open spec fn destination_spec(&self) -> Seq<char> {
        match *self {
            WriteOp::Put { location } => location@,
            WriteOp::PutMultipart { location } => location@,
            WriteOp::Delete { location } => location@,
            WriteOp::Copy { to, .. } => to@,
            WriteOp::CopyIfNotExists { to, .. } => to@,
        }
    }

    /// The location whose object the change touches: the one that is
    /// written or deleted, or the one that is copied to.
    pub fn destination(&self) -> (location: &'a str)
        ensures
            location@ == self.destination_spec(),
    {
        match *self {
            WriteOp::Put { location } => location,
            WriteOp::PutMultipart { location } => location,
            WriteOp::Delete { location } => location,
            WriteOp::Copy { to, .. } => to,
            WriteOp::CopyIfNotExists { to, .. } => to,
        }
    }
}

/// All metadata that `after` holds was in `before` already, but for that
/// of `location`, which may be what `head` returned.
pub open spec fn heads_within<H: FnOnce() -> Result<ObjectMeta, Error>>(
    before: Map<Seq<char>, ObjectMetaView>,
    after: Map<Seq<char>, ObjectMetaView>,
    location: Seq<char>,
    head: H,
) -> bool {
    forall|other: Seq<char>| #[trigger]
        after.contains_key(other) ==> holds_head(before, other, after[other]) || (other
            == location && loads_head(head, after[other]))
}

/// The number of processors that this process can use, as `num_cpus::get`
/// reports it. Its documentation promises at least 1.
#[verifier::external_body]
fn available_processors() -> (n: usize)
    ensures
        n >= 1,
{
    num_cpus::get()
}

/// A page cache in front of a backing store.
///
/// The cache is read through: what it does not have is fetched from the
/// backing store and cached on the way back. The backing store itself is
/// not held here. Each operation says what to ask of it, and takes the
/// answer.
#[derive(Debug)]
pub struct ReadThroughCache<C: PageCache> {
    /// The page cache.
    pub cache: C,
    /// How many requests to the backing store may run at the same time.
    pub parallelism: usize,
}

impl<C: PageCache> ReadThroughCache<C> {
    /// The cache is well formed, its pages are not empty, and at least one
    /// request may run at a time.
    pub open spec fn wf(&self) -> bool {
        &&& self.cache.wf()
        &&& self.cache.page_size_spec() > 0
        &&& self.parallelism >= 1
    }

    /// A read-through cache over `cache`, with as many requests at a time
    /// as there are processors.
    pub fn new(cache: C) -> (r: Self)
        requires
            cache.wf(),
            cache.page_size_spec() > 0,
        ensures
            r.wf(),
            r.cache == cache,
    {
        Self::with_parallelism(cache, available_processors())
    }

    /// A read-through cache over `cache`, with `parallelism` requests at a
    /// time. It is well formed if the cache is, its pages are not empty and
    /// `parallelism` is not zero.
    pub fn with_parallelism(cache: C, parallelism: usize) -> (r: Self)
        ensures
            r.cache == cache,
            r.parallelism == parallelism,
    {
        ReadThroughCache { cache, parallelism }
    }

    /// Forgets what is cached of `location`. What is cached of other
    /// locations stays.
    pub fn invalidate(&mut self, location: &str)
        requires
            old(self).wf(),
        ensures
            final(self).wf(),
            final(self).parallelism == old(self).parallelism,
            final(self).cache.page_size_spec() == old(self).cache.page_size_spec(),
            final(self).cache.capacity_spec() == old(self).cache.capacity_spec(),
            final(self).cache.pages().submap_of(old(self).cache.pages()),
            final(self).cache.heads().submap_of(old(self).cache.heads()),
            forgotten(final(self).cache.pages(), final(self).cache.heads(), location@),
            others_kept(
                old(self).cache.pages(),
                final(self).cache.pages(),
                old(self).cache.heads(),
                final(self).cache.heads(),
                location@,
            ),
    {
        self.cache.invalidate(location)
    }

    /// Makes the cache ready for the change `op` to the backing store: what
    /// is cached of the location that `op` touches is forgotten, and nothing
    /// else: what is cached of the location that is copied from stays. Only
    /// then may the change go to the backing store, so that no read finds
    /// bytes from before the change in the cache.
    pub fn prepare_write(&mut self, op: &WriteOp)
        requires
            old(self).wf(),
        ensures
            final(self).wf(),
            final(self).parallelism == old(self).parallelism,
            final(self).cache.page_size_spec() == old(self).cache.page_size_spec(),
            final(self).cache.capacity_spec() == old(self).cache.capacity_spec(),
            final(self).cache.pages().submap_of(old(self).cache.pages()),
            final(self).cache.heads().submap_of(old(self).cache.heads()),
            forgotten(final(self).cache.pages(), final(self).cache.heads(), op.destination_spec()),
            others_kept(
                old(self).cache.pages(),
                final(self).cache.pages(),
                old(self).cache.heads(),
                final(self).cache.heads(),
                op.destination_spec(),
            ),
    {
        self.invalidate(op.destination())
    }

    /// The cached metadata of `location`, if the cache has it. Where it has
    /// none, the backing store is to be asked, and its answer handed to
    /// [`Self::head`].
    pub fn peek_head(&mut self, location: &str) -> (r: Option<ObjectMeta>)
        requires
            old(self).wf(),
        ensures
            final(self).wf(),
            final(self).parallelism == old(self).parallelism,
            final(self).cache.page_size_spec() == old(self).cache.page_size_spec(),
            final(self).cache.capacity_spec() == old(self).cache.capacity_spec(),
            final(self).cache.pages().submap_of(old(self).cache.pages()),
            final(self).cache.heads().submap_of(old(self).cache.heads()),
            r matches Some(meta) ==> holds_head(old(self).cache.heads(), location@, meta@),
    {
        self.cache.peek_head(location)
    }

    /// The metadata of `location`: the cached one, or else what `loader`
    /// has from the backing store, which is then cached. A failure of the
    /// loader is reported in its own kind and caches nothing.
    pub fn head<F: FnOnce() -> Result<ObjectMeta, Error>>(&mut self, location: &str, loader: F) -> (r:
        Result<ObjectMeta, Error>)
        requires
            old(self).wf(),
            loader.requires(()),
        ensures
            final(self).wf(),
            final(self).parallelism == old(self).parallelism,
            final(self).cache.page_size_spec() == old(self).cache.page_size_spec(),
            final(self).cache.capacity_spec() == old(self).cache.capacity_spec(),
            final(self).cache.pages().submap_of(old(self).cache.pages()),
            match r {
                Ok(meta) => {
                    &&& final(self).cache.heads().submap_of(
                        old(self).cache.heads().insert(location@, meta@),
                    )
                    &&& holds_head(old(self).cache.heads(), location@, meta@) || loads_head(
                        loader,
                        meta@,
                    )
                },
                Err(failure) => {
                    &&& final(self).cache.heads().submap_of(old(self).cache.heads())
                    &&& exists|cause: Arc<Error>| #[trigger]
                        loader.ensures((), Err(*cause)) && reports(failure, cause)
                },
            },
    {
        self.cache.head(location, loader)
    }

    /// The request that reads an object of `size` bytes from its first byte
    /// to its last, with this cache's page size.
    pub open spec fn whole(&self, size: usize) -> ReadRequest {
        ReadRequest { start: 0, end: size, page_size: self.cache.page_size_spec(), size }
    }

    /// The number of chunks in which an object of `size` bytes is read as a
    /// whole: one for each of its pages.
    pub fn chunk_count(&self, size: usize) -> (n: usize)
        requires
            self.wf(),
        ensures
            n == self.whole(size).page_count(),
    {
        let page_size = self.cache.page_size();
        if size == 0 {
            0
        } else {
            proof {
                lemma_page_of(0, page_size as int);
                lemma_page_of(size - 1, page_size as int);
                lemma_page_is(0, page_size as int, 0);
            }
            (size - 1) / page_size + 1
        }
    }

    /// The byte range of the chunk `index` of an object of `size` bytes that
    /// is read as a whole: the range of the page `index`, which for the last
    /// chunk ends where the object ends. There is no such chunk at or after
    /// [`Self::chunk_count`].
    ///
    /// The chunks are read one by one with [`Self::plan_range`] and
    /// [`Self::finish_range`], from chunk 0 on, each time the object is read.
    pub fn chunk(&self, size: usize, index: usize) -> (r: Option<Range<usize>>)
        requires
            self.wf(),
        ensures
            r is Some <==> index < self.whole(size).page_count(),
            r matches Some(range) ==> {
                &&& range.start == self.whole(size).page_offset(index as int)
                &&& range.end == self.whole(size).page_end(index as int)
                &&& range.start == self.whole(size).part_start(index as int)
                &&& range.end == self.whole(size).part_end(index as int)
            },
    {
        let page_size = self.cache.page_size();
        let count = self.chunk_count(size);
        if index >= count {
            return None;
        }
        proof {
            self.whole(size).lemma_parts(index as int);
            lemma_page_is(0, page_size as int, 0);
        }
        let start = index * page_size;
        let end = if size - start >= page_size {
            start + page_size
        } else {
            size
        };
        Some(Range { start, end })
    }

    /// Cuts the bytes `range` of the object at `location`, which is `size`
    /// bytes long, into pages, and looks up in the cache the part that the
    /// range takes from each. Bytes at or after `size` are not asked for.
    ///
    /// A page whose id does not fit the cache's page ids is never looked up.
    pub fn plan_range(&mut self, location: &str, range: Range<usize>, size: usize) -> (plan:
        ReadPlan)
        requires
            old(self).wf(),
        ensures
            final(self).wf(),
            final(self).parallelism == old(self).parallelism,
            final(self).cache.page_size_spec() == old(self).cache.page_size_spec(),
            final(self).cache.capacity_spec() == old(self).cache.capacity_spec(),
            final(self).cache.pages().submap_of(old(self).cache.pages()),
            final(self).cache.heads().submap_of(old(self).cache.heads()),
            plan.request == (ReadRequest {
                start: range.start,
                end: range.end,
                page_size: old(self).cache.page_size_spec(),
                size,
            }),
            plan.wf(),
            forall|i: int|
                0 <= i < plan.slots@.len() ==> #[trigger] plan.hit_from(
                    i,
                    old(self).cache.pages(),
                    location@,
                ),
    {
        let page_size = self.cache.page_size();
        let request = ReadRequest { start: range.start, end: range.end, page_size, size };
        let stop = if range.end <= size {
            range.end
        } else {
            size
        };
        let mut plan = ReadPlan { request, slots: Vec::new() };
        if range.start >= stop {
            return plan;
        }
        let mut index = range.start / page_size;
        proof {
            lemma_page_of(range.start as int, page_size as int);
        }
        let mut offset = index * page_size;
        loop
            invariant_except_break
                plan.slots@.len() < request.page_count(),
                index == request.page_index(plan.slots@.len() as int),
                offset == request.page_offset(plan.slots@.len() as int),
            invariant
                self.wf(),
                self.parallelism == old(self).parallelism,
                self.cache.page_size_spec() == old(self).cache.page_size_spec(),
                self.cache.capacity_spec() == old(self).cache.capacity_spec(),
                self.cache.pages().submap_of(old(self).cache.pages()),
                self.cache.heads().submap_of(old(self).cache.heads()),
                page_size == self.cache.page_size_spec(),
                plan.request == request,
                request == (ReadRequest {
                    start: range.start,
                    end: range.end,
                    page_size,
                    size,
                }),
                stop == request.stop(),
                range.start < stop,
                forall|i: int| 0 <= i < plan.slots@.len() ==> #[trigger] plan.slot_wf(i),
                forall|i: int|
                    0 <= i < plan.slots@.len() ==> #[trigger] plan.hit_from(
                        i,
                        old(self).cache.pages(),
                        location@,
                    ),
            ensures
                self.wf(),
                self.parallelism == old(self).parallelism,
                self.cache.page_size_spec() == old(self).cache.page_size_spec(),
                self.cache.capacity_spec() == old(self).cache.capacity_spec(),
                self.cache.pages().submap_of(old(self).cache.pages()),
                self.cache.heads().submap_of(old(self).cache.heads()),
                plan.request == request,
                plan.wf(),
                forall|i: int|
                    0 <= i < plan.slots@.len() ==> #[trigger] plan.hit_from(
                        i,
                        old(self).cache.pages(),
                        location@,
                    ),
            decreases stop - offset,
        {
            let ghost i = plan.slots@.len() as int;
            let ghost before = plan;
            proof {
                request.lemma_parts(i);
            }
            let page_end = if size - offset >= page_size {
                offset + page_size
            } else {
                size
            };
            let part_start = if offset >= range.start {
                offset
            } else {
                range.start
            };
            let part_end = if stop - offset >= page_size {
                offset + page_size
            } else {
                stop
            };
            let ghost pages = self.cache.pages();
            let ghost heads = self.cache.heads();
            let cached = if index <= u32::MAX as usize {
                self.cache.get_range(
                    location,
                    index as u32,
                    Range { start: part_start - offset, end: part_end - offset },
                )
            } else {
                None
            };
            plan.slots.push(PageSlot { index, page: Range { start: offset, end: page_end }, cached });
            proof {
                vstd::map_lib::lemma_submap_of_trans(
                    self.cache.pages(),
                    pages,
                    old(self).cache.pages(),
                );
                vstd::map_lib::lemma_submap_of_trans(
                    self.cache.heads(),
                    heads,
                    old(self).cache.heads(),
                );
                assert forall|k: int| 0 <= k < plan.slots@.len() implies #[trigger] plan.slot_wf(
                    k,
                ) by {
                    if k < i {
                        assert(before.slot_wf(k));
                    }
                }
                assert forall|k: int| 0 <= k < plan.slots@.len() implies #[trigger] plan.hit_from(
                    k,
                    old(self).cache.pages(),
                    location@,
                ) by {
                    if k < i {
                        assert(before.hit_from(k, old(self).cache.pages(), location@));
                    } else if cached is Some {
                        let key = (location@, index as u32);
                        assert(old(self).cache.pages().contains_key(key));
                    }
                }
            }
            if stop - offset <= page_size {
                proof {
                    assert((index + 1) * page_size == index * page_size + page_size)
                        by (nonlinear_arith);
                    lemma_page_is(stop - 1, page_size as int, index as int);
                }
                break ;
            }
            proof {
                assert((index + 1) * page_size == index * page_size + page_size)
                    by (nonlinear_arith);
                lemma_page_is(offset + page_size, page_size as int, index + 1);
                lemma_page_of(offset + page_size, page_size as int);
            }
            offset = offset + page_size;
            index = index + 1;
        }
        plan
    }

    /// `failure` says that the pages handed to [`Self::finish_range`] were
    /// not the pages that its plan asked for.
    pub open spec fn is_unexpected_pages(failure: Error) -> bool {
        &&& failure matches Error::Generic { store, source }
        &&& store@ == READ_THROUGH_CACHE@
        &&& source matches ErrorSource::Backend(message)
        &&& message@ == UNEXPECTED_PAGES@
    }

    /// `failure` says that the bytes of a read are more than one buffer
    /// can hold.
    pub open spec fn is_too_long(failure: Error) -> bool {
        &&& failure matches Error::Generic { store, source }
        &&& store@ == READ_THROUGH_CACHE@
        &&& source matches ErrorSource::Backend(message)
        &&& message@ == TOO_LONG@
    }

    /// `fetched` can end the read that `plan` began: the plan was made for
    /// this cache's page size and `fetched` answers it.
    pub open spec fn answers(&self, plan: ReadPlan, fetched: Seq<Seq<u8>>) -> bool {
        plan.request.page_size == self.cache.page_size_spec() && plan.accepts(fetched)
    }

    /// Ends the read that `plan` began for `location`, with the pages
    /// `fetched` from the backing store for [`ReadPlan::missed`]: returns
    /// the bytes of the read, put together in page order, and caches each
    /// fetched page whose id fits the cache's page ids.
    ///
    /// Pages that do not answer the plan, or a plan made for another page
    /// size, are refused; so is a read of more bytes than one buffer can
    /// hold, which is more than `isize::MAX`. The cache is then left as it
    /// was.
    pub fn finish_range(&mut self, location: &str, plan: ReadPlan, fetched: Vec<Bytes>) -> (r:
        Result<Bytes, Error>)
        requires
            old(self).wf(),
            plan.wf(),
        ensures
            final(self).wf(),
            final(self).parallelism == old(self).parallelism,
            final(self).cache.page_size_spec() == old(self).cache.page_size_spec(),
            final(self).cache.capacity_spec() == old(self).cache.capacity_spec(),
            final(self).cache.heads().submap_of(old(self).cache.heads()),
            r is Ok <==> old(self).answers(plan, views(fetched@)) && plan.request.served_len()
                <= isize::MAX,
            match r {
                Ok(bytes) => {
                    &&& bytes_view(bytes) == plan.assembled(views(fetched@))
                    &&& plan.backfilled(
                        plan.slots@.len() as int,
                        location@,
                        views(fetched@),
                        old(self).cache.pages(),
                        final(self).cache.pages(),
                    )
                },
                Err(failure) => {
                    &&& final(self).cache == old(self).cache
                    &&& if old(self).answers(plan, views(fetched@)) {
                        Self::is_too_long(failure)
                    } else {
                        Self::is_unexpected_pages(failure)
                    }
                },
            },
    {
        let page_size = self.cache.page_size();
        if plan.request.page_size != page_size || !plan.answered_by(&fetched) {
            return Err(
                Error::Generic {
                    store: READ_THROUGH_CACHE,
                    source: ErrorSource::Backend(UNEXPECTED_PAGES.to_owned()),
                },
            );
        }
        let ghost answer = views(fetched@);
        let request = plan.request;
        let stop = if request.end <= request.size {
            request.end
        } else {
            request.size
        };
        let served = if request.start < stop {
            stop - request.start
        } else {
            0
        };
        if served > isize::MAX as usize {
            return Err(
                Error::Generic {
                    store: READ_THROUGH_CACHE,
                    source: ErrorSource::Backend(TOO_LONG.to_owned()),
                },
            );
        }
        let mut buf = BytesMut::with_capacity(served);
        let mut i: usize = 0;
        let mut j: usize = 0;
        while i < plan.slots.len()
            invariant
                self.wf(),
                self.parallelism == old(self).parallelism,
                self.cache.page_size_spec() == old(self).cache.page_size_spec(),
                self.cache.capacity_spec() == old(self).cache.capacity_spec(),
                self.cache.heads().submap_of(old(self).cache.heads()),
                plan.wf(),
                request == plan.request,
                request.page_size == self.cache.page_size_spec(),
                stop == request.stop(),
                request.served_len() <= isize::MAX,
                answer == views(fetched@),
                plan.accepts(answer),
                0 <= i <= plan.slots@.len(),
                j == plan.misses_before(i as int),
                bytes_mut_view(buf) == plan.assembled_before(i as int, answer),
                plan.backfilled(
                    i as int,
                    location@,
                    answer,
                    old(self).cache.pages(),
                    self.cache.pages(),
                ),
            decreases plan.slots@.len() - i,
        {
            proof {
                request.lemma_parts(i as int);
                plan.lemma_assembled_len(i as int, answer);
                plan.lemma_piece_len(i as int, answer);
                plan.lemma_misses_before(i as int, plan.slots@.len() as int);
                assert(plan.slot_wf(i as int));
            }
            let slot = &plan.slots[i];
            let ghost pages = self.cache.pages();
            let ghost heads = self.cache.heads();
            match &slot.cached {
                Some(part) => {
                    append_bytes(&mut buf, part);
                },
                None => {
                    let page = &fetched[j];
                    let offset = slot.page.start;
                    let part_start = if offset >= request.start {
                        offset
                    } else {
                        request.start
                    };
                    let part_end = if stop - offset >= request.page_size {
                        offset + request.page_size
                    } else {
                        stop
                    };
                    let part = slice_bytes(page, part_start - offset, part_end - offset);
                    append_bytes(&mut buf, &part);
                    if slot.index <= u32::MAX as usize {
                        self.cache.put(location, slot.index as u32, page.clone());
                        proof {
                            vstd::map_lib::lemma_submap_of_trans(
                                self.cache.heads(),
                                heads,
                                old(self).cache.heads(),
                            );
                        }
                    }
                    j += 1;
                },
            }
            proof {
                assert forall|key: PageKey| #[trigger]
                    self.cache.pages().contains_key(key) implies holds_page(
                    old(self).cache.pages(),
                    key,
                    self.cache.pages()[key],
                ) || plan.backfills(i + 1, location@, answer, key, self.cache.pages()[key]) by {
                    let page = self.cache.pages()[key];
                    if !(pages.contains_key(key) && pages[key] == page) {
                        let put_key = (location@, slot.index as u32);
                        assert(pages.insert(put_key, answer[j as int - 1]).dom().contains(key));
                        assert(plan.backfills_at(i as int, location@, answer, key, page));
                    }
                }
            }
            i += 1;
        }
        Ok(buf.freeze())
    }

    /// The request for the bytes `range` of `object`, with this cache's
    /// page size.
    pub open spec fn asked(&self, range: Range<usize>, object: Seq<u8>) -> ReadRequest {
        ReadRequest {
            start: range.start,
            end: range.end,
            page_size: self.cache.page_size_spec(),
            size: object.len() as usize,
        }
    }

    /// `plan` is a plan of the read of `range` at `location` from an object
    /// of `size` bytes, made with the pages `pages` in the cache.
    pub open spec fn plans(
        &self,
        plan: ReadPlan,
        location: Seq<char>,
        range: Range<usize>,
        size: usize,
        pages: Map<PageKey, Seq<u8>>,
    ) -> bool {
        &&& plan.request == (ReadRequest {
            start: range.start,
            end: range.end,
            page_size: self.cache.page_size_spec(),
            size,
        })
        &&& plan.wf()
        &&& forall|i: int| 0 <= i < plan.slots@.len() ==> #[trigger] plan.hit_from(i, pages, location)
    }

    /// Reads the bytes `range` of the object at `location` through the
    /// cache. `head` asks the backing store for the object's metadata and
    /// is called only if the cache has none; `fetch` asks it for the bytes
    /// of some ranges, all at once, and is called only if the cache lacks a
    /// page of the read. The bytes come back in the order of the range, cut
    /// off where the object ends, and every fetched page is cached.
    ///
    /// A failure of `head` is reported in its own kind, a failure of
    /// `fetch` as it is. A read that fails caches no page.
    pub fn get_range<H, G>(&mut self, location: &str, range: Range<usize>, head: H, fetch: G) -> (r:
        Result<Bytes, Error>) where
        H: FnOnce() -> Result<ObjectMeta, Error>,
        G: FnOnce(Vec<Range<usize>>) -> Result<Vec<Bytes>, Error>,

        requires
            old(self).wf(),
            head.requires(()),
            forall|ranges: Vec<Range<usize>>| #[trigger] fetch.requires((ranges,)),
        ensures
            final(self).wf(),
            final(self).parallelism == old(self).parallelism,
            final(self).cache.page_size_spec() == old(self).cache.page_size_spec(),
            final(self).cache.capacity_spec() == old(self).cache.capacity_spec(),
            heads_within(old(self).cache.heads(), final(self).cache.heads(), location@, head),
            match r {
                Ok(bytes) => exists|meta: ObjectMeta, plan: ReadPlan, fetched: Vec<Bytes>|
                    {
                        &&& holds_head(old(self).cache.heads(), location@, meta@) || loads_head(
                            head,
                            meta@,
                        )
                        &&& #[trigger] old(self).plans(
                            plan,
                            location@,
                            range,
                            meta.size,
                            old(self).cache.pages(),
                        )
                        &&& plan.miss_count() == 0 ==> fetched@.len() == 0
                        &&& plan.miss_count() > 0 ==> exists|missed: Vec<Range<usize>>|
                            missed@ == plan.missed_ranges() && #[trigger] fetch.ensures(
                                (missed,),
                                Ok(fetched),
                            )
                        &&& plan.accepts(views(fetched@))
                        &&& bytes_view(bytes) == #[trigger] plan.assembled(views(fetched@))
                        &&& plan.backfilled(
                            plan.slots@.len() as int,
                            location@,
                            views(fetched@),
                            old(self).cache.pages(),
                            final(self).cache.pages(),
                        )
                    },
                Err(failure) => {
                    &&& final(self).cache.pages().submap_of(old(self).cache.pages())
                    &&& {
                        ||| exists|cause: Arc<Error>| #[trigger]
                            head.ensures((), Err(*cause)) && reports(failure, cause)
                        ||| exists|missed: Vec<Range<usize>>| #[trigger]
                            fetch.ensures((missed,), Err(failure))
                        ||| Self::is_unexpected_pages(failure)
                        ||| Self::is_too_long(failure)
                    }
                },
            },
            forall|object: Seq<u8>|
                coherent(
                    old(self).cache.pages(),
                    location@,
                    object,
                    old(self).cache.page_size_spec() as int,
                ) && sized(old(self).cache.heads(), location@, object) && head_tells(head, object)
                    && #[trigger] fetch_tells(fetch, object) ==> {
                    &&& coherent(
                        final(self).cache.pages(),
                        location@,
                        object,
                        old(self).cache.page_size_spec() as int,
                    )
                    &&& sized(final(self).cache.heads(), location@, object)
                    &&& match r {
                        Ok(bytes) => bytes_view(bytes) == old(self).asked(range, object).served(
                            object,
                        ),
                        Err(failure) => {
                            ||| exists|cause: Arc<Error>| #[trigger]
                                head.ensures((), Err(*cause)) && reports(failure, cause)
                            ||| exists|missed: Vec<Range<usize>>| #[trigger]
                                fetch.ensures((missed,), Err(failure))
                            ||| Self::is_too_long(failure) && old(self).asked(
                                range,
                                object,
                            ).served_len() > isize::MAX
                        },
                    }
                },
    {
        let ghost pages0 = self.cache.pages();
        let ghost heads0 = self.cache.heads();
        let ghost page_size = self.cache.page_size_spec() as int;
        let meta = match self.cache.head(location, head) {
            Ok(meta) => meta,
            Err(failure) => {
                proof {
                    assert forall|object: Seq<u8>|
                        coherent(pages0, location@, object, page_size) && sized(
                            heads0,
                            location@,
                            object,
                        ) implies coherent(self.cache.pages(), location@, object, page_size)
                        && sized(self.cache.heads(), location@, object) by {
                        lemma_coherent_submap(
                            self.cache.pages(),
                            pages0,
                            location@,
                            object,
                            page_size,
                        );
                        lemma_sized_submap(self.cache.heads(), heads0, location@, object);
                    }
                }
                return Err(failure);
            },
        };
        let ghost pages1 = self.cache.pages();
        let ghost heads1 = self.cache.heads();
        let size = meta.size;
        let plan = self.plan_range(location, range, size);
        let ghost pages2 = self.cache.pages();
        let ghost heads2 = self.cache.heads();
        let ghost planned = plan;
        proof {
            assert forall|i: int| 0 <= i < plan.slots@.len() implies #[trigger] plan.hit_from(
                i,
                pages0,
                location@,
            ) by {
                assert(plan.hit_from(i, pages1, location@));
                if let Some(part) = plan.slots@[i].cached {
                    let key = (location@, plan.slots@[i].index as u32);
                    assert(pages0.dom().contains(key));
                }
            }
            assert(old(self).plans(plan, location@, range, size, pages0));
            plan.lemma_misses_before(plan.slots@.len() as int, plan.slots@.len() as int);
        }
        let missed = plan.missed();
        let fetched = if missed.len() == 0 {
            Vec::new()
        } else {
            match fetch(missed) {
                Ok(fetched) => fetched,
                Err(failure) => {
                    proof {
                        vstd::map_lib::lemma_submap_of_trans(pages2, pages1, pages0);
                        assert(heads_within(heads0, heads2, location@, head)) by {
                            assert forall|other: Seq<char>| #[trigger]
                                heads2.contains_key(other) implies holds_head(
                                heads0,
                                other,
                                heads2[other],
                            ) || (other == location@ && loads_head(head, heads2[other])) by {
                                assert(heads2.dom().contains(other));
                                assert(heads1.dom().contains(other));
                                assert(heads0.insert(location@, meta@).dom().contains(other));
                            }
                        }
                        assert forall|object: Seq<u8>|
                            coherent(pages0, location@, object, page_size) && sized(
                                heads0,
                                location@,
                                object,
                            ) && head_tells(head, object) implies coherent(
                            self.cache.pages(),
                            location@,
                            object,
                            page_size,
                        ) && sized(self.cache.heads(), location@, object) by {
                            lemma_coherent_submap(pages1, pages0, location@, object, page_size);
                            lemma_coherent_submap(pages2, pages1, location@, object, page_size);
                            lemma_sized_insert(heads1, heads0, location@, meta@, object);
                            lemma_sized_submap(heads2, heads1, location@, object);
                        }
                    }
                    return Err(failure);
                },
            }
        };
        let ghost answer = views(fetched@);
        let ghost handed = fetched;
        let r = self.finish_range(location, plan, fetched);
        proof {
            let pages3 = self.cache.pages();
            let heads3 = self.cache.heads();
            vstd::map_lib::lemma_submap_of_trans(pages2, pages1, pages0);
            if r is Ok {
                assert(planned.backfilled(
                    planned.slots@.len() as int,
                    location@,
                    answer,
                    pages0,
                    pages3,
                )) by {
                    assert forall|key: PageKey| #[trigger] pages3.contains_key(key) implies holds_page(
                        pages0,
                        key,
                        pages3[key],
                    ) || planned.backfills(
                        planned.slots@.len() as int,
                        location@,
                        answer,
                        key,
                        pages3[key],
                    ) by {
                        if holds_page(pages2, key, pages3[key]) {
                            assert(pages2.dom().contains(key));
                            assert(pages0.dom().contains(key));
                        }
                    }
                }
            }
            assert(heads_within(heads0, heads3, location@, head)) by {
                assert forall|other: Seq<char>| #[trigger] heads3.contains_key(other) implies holds_head(
                    heads0,
                    other,
                    heads3[other],
                ) || (other == location@ && loads_head(head, heads3[other])) by {
                    assert(heads3.dom().contains(other));
                    assert(heads2.dom().contains(other));
                    assert(heads1.dom().contains(other));
                    assert(heads0.insert(location@, meta@).dom().contains(other));
                }
            }
            assert forall|object: Seq<u8>|
                coherent(pages0, location@, object, page_size) && sized(heads0, location@, object)
                    && head_tells(head, object) && #[trigger] fetch_tells(fetch, object) implies {
                &&& coherent(pages3, location@, object, page_size)
                &&& sized(heads3, location@, object)
                &&& match r {
                    Ok(bytes) => bytes_view(bytes) == old(self).asked(range, object).served(object),
                    Err(failure) => Self::is_too_long(failure) && old(self).asked(
                        range,
                        object,
                    ).served_len() > isize::MAX,
                }
            } by {
                lemma_coherent_submap(pages1, pages0, location@, object, page_size);
                lemma_coherent_submap(pages2, pages1, location@, object, page_size);
                lemma_sized_insert(heads1, heads0, location@, meta@, object);
                lemma_sized_submap(heads2, heads1, location@, object);
                lemma_sized_submap(heads3, heads2, location@, object);
                planned.lemma_coherent_hits_agree(pages0, location@, object);
                assert(planned.fetched_agree(answer, object)) by {
                    planned.lemma_misses_before(
                        planned.slots@.len() as int,
                        planned.slots@.len() as int,
                    );
                    assert forall|i: int|
                        0 <= i < planned.slots@.len()
                            && planned.slots@[i].cached is None implies #[trigger] answer[planned.misses_before(
                        i,
                    )] == object.subrange(
                        planned.slots@[i].page.start as int,
                        planned.slots@[i].page.end as int,
                    ) by {
                        planned.lemma_missed_ranges(i);
                    }
                }
                planned.lemma_read_returns_object_bytes(answer, object);
                if r is Ok {
                    planned.lemma_backfill_keeps_coherent(
                        answer,
                        location@,
                        object,
                        pages2,
                        pages3,
                    );
                }
            }
        }
        r
    }
}

} // verus!
