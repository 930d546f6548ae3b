//! What a read returns when the cache agrees with the object.
//!
//! A cache is coherent with an object when every page that it holds of the
//! object's location is that page of the object. The statements here are
//! about the plans and answers of [`crate::read_through`], as values: they
//! hold of every cache, whatever it keeps and whatever it drops.

use crate::buffer::bytes_view;
use crate::error::Error;
use crate::layout::ReadRequest;
use crate::paging::{ObjectMeta, ObjectMetaView, PageKey};
use crate::read_through::ReadPlan;
use bytes::Bytes;
use std::ops::Range;
use vstd::prelude::*;

verus! {

/// The bytes of the page `page_id` of `object`, with pages of `page_size`
/// bytes: one page size of bytes, or fewer where the object ends.
pub open spec fn page_of(object: Seq<u8>, page_size: int, page_id: int) -> Seq<u8> {
    if page_id * page_size + page_size <= object.len() {
        object.subrange(page_id * page_size, page_id * page_size + page_size)
    } else if page_id * page_size <= object.len() {
        object.subrange(page_id * page_size, object.len() as int)
    } else {
        Seq::empty()
    }
}

/// Every page that `pages` holds of `location` is that page of `object`.
pub open spec fn coherent(
    pages: Map<PageKey, Seq<u8>>,
    location: Seq<char>,
    object: Seq<u8>,
    page_size: int,
) -> bool {
    forall|page_id: u32| #[trigger]
        pages.contains_key((location, page_id)) ==> pages[(location, page_id)] == page_of(
            object,
            page_size,
            page_id as int,
        )
}

/// The metadata that `heads` holds of `location`, if any, gives the size
/// of `object`.
pub open spec fn sized(
    heads: Map<Seq<char>, ObjectMetaView>,
    location: Seq<char>,
    object: Seq<u8>,
) -> bool {
    heads.contains_key(location) ==> heads[location].size == object.len()
}

/// Whatever metadata `head` returns gives the size of `object`.
pub open spec fn head_tells<H: FnOnce() -> Result<ObjectMeta, Error>>(
    head: H,
    object: Seq<u8>,
) -> bool {
    forall|meta: ObjectMeta| #[trigger] head.ensures((), Ok(meta)) ==> meta.size == object.len()
}

/// Whatever pages `fetch` returns for some ranges are the bytes of `object`
/// in those ranges, one page for each range and in their order.
pub open spec fn fetch_tells<G: FnOnce(Vec<Range<usize>>) -> Result<Vec<Bytes>, Error>>(
    fetch: G,
    object: Seq<u8>,
) -> bool {
    forall|ranges: Vec<Range<usize>>, pages: Vec<Bytes>| #[trigger]
        fetch.ensures((ranges,), Ok(pages)) ==> {
            &&& pages@.len() == ranges@.len()
            &&& forall|j: int|
                0 <= j < ranges@.len() ==> bytes_view(#[trigger] pages@[j]) == object.subrange(
                    ranges@[j].start as int,
                    ranges@[j].end as int,
                )
        }
}

impl ReadRequest {
    /// The bytes of `object` that the request is served: those from `start`
    /// up to `end`, or up to the object's end if that comes first.
    pub open spec fn served(&self, object: Seq<u8>) -> Seq<u8> {
        if self.start < self.stop() {
            object.subrange(self.start as int, self.stop())
        } else {
            Seq::empty()
        }
    }
}

impl ReadPlan {
    /// Each part that the cache had is that part of `object`.
    pub open spec fn hits_agree(&self, object: Seq<u8>) -> bool {
        forall|i: int|
            0 <= i < self.slots@.len() ==> (#[trigger] self.slots@[i].cached matches Some(part)
                ==> bytes_view(part) == object.subrange(
                self.request.part_start(i),
                self.request.part_end(i),
            ))
    }

    /// `fetched` holds, for each page that the cache did not have, the bytes
    /// of `object` in that page's range, in page order.
    pub open spec fn fetched_agree(&self, fetched: Seq<Seq<u8>>, object: Seq<u8>) -> bool {
        &&& fetched.len() == self.miss_count()
        &&& forall|i: int|
            0 <= i < self.slots@.len() && self.slots@[i].cached is None ==> #[trigger] fetched[self.misses_before(
                i,
            )] == object.subrange(
                self.slots@[i].page.start as int,
                self.slots@[i].page.end as int,
            )
    }

    /// When every cached part and every fetched page holds the object's
    /// bytes, the read returns exactly the bytes of the
    /// object in the range asked for, cut off at the object's end: nothing
    /// is padded and nothing is left out, whichever pages came from the
    /// cache and whichever from the backing store.
    pub proof fn lemma_read_returns_object_bytes(&self, fetched: Seq<Seq<u8>>, object: Seq<u8>)
        requires
            self.wf(),
            object.len() == self.request.size,
            self.hits_agree(object),
            self.fetched_agree(fetched, object),
        ensures
            self.accepts(fetched),
            self.assembled(fetched) == self.request.served(object),
            self.assembled(fetched).len() == self.request.served_len(),
    {
        assert forall|i: int|
            0 <= i < self.slots@.len() && self.slots@[i].cached is None implies (
        #[trigger] fetched[self.misses_before(i)]).len() == self.slots@[i].page.end
            - self.slots@[i].page.start by {
            self.request.lemma_parts(i);
            assert(self.slot_wf(i));
        }
        let n = self.slots@.len() as int;
        self.request.lemma_page_count();
        self.lemma_assembled_object_bytes(n, fetched, object);
        if n > 0 {
            self.request.lemma_parts(n - 1);
        }
    }

    /// The bytes taken from the first `i` pages are the bytes of the object
    /// from the request's start to the end of the part taken from the last
    /// of them.
    proof fn lemma_assembled_object_bytes(&self, i: int, fetched: Seq<Seq<u8>>, object: Seq<u8>)
        requires
            self.wf(),
            object.len() == self.request.size,
            self.hits_agree(object),
            self.fetched_agree(fetched, object),
            0 <= i <= self.slots@.len(),
        ensures
            i == 0 ==> self.assembled_before(i, fetched) == Seq::<u8>::empty(),
            i > 0 ==> self.assembled_before(i, fetched) == object.subrange(
                self.request.start as int,
                self.request.part_end(i - 1),
            ),
        decreases i,
    {
        if i > 0 {
            let k = i - 1;
            self.lemma_assembled_object_bytes(k, fetched, object);
            self.request.lemma_parts(k);
            if k > 0 {
                self.request.lemma_parts(k - 1);
            }
            assert(self.slot_wf(k));
            let from = self.request.part_start(k);
            let to = self.request.part_end(k);
            let offset = self.request.page_offset(k);
            let piece = self.piece(k, fetched);
            assert(piece == object.subrange(from, to)) by {
                match self.slots@[k].cached {
                    Some(part) => {},
                    None => {
                        let page = fetched[self.misses_before(k)];
                        assert(page.subrange(from - offset, to - offset) =~= object.subrange(
                            from,
                            to,
                        ));
                    },
                }
            }
            assert(self.assembled_before(i, fetched) =~= object.subrange(
                self.request.start as int,
                to,
            ));
        }
    }

    /// A part that the plan took from a cache which was coherent with the
    /// object holds the object's bytes.
    pub proof fn lemma_coherent_hits_agree(
        &self,
        pages: Map<PageKey, Seq<u8>>,
        location: Seq<char>,
        object: Seq<u8>,
    )
        requires
            self.wf(),
            object.len() == self.request.size,
            coherent(pages, location, object, self.request.page_size as int),
            forall|i: int| 0 <= i < self.slots@.len() ==> #[trigger] self.hit_from(i, pages, location),
        ensures
            self.hits_agree(object),
    {
        assert forall|i: int| 0 <= i < self.slots@.len() implies (
        #[trigger] self.slots@[i].cached matches Some(part) ==> bytes_view(part)
            == object.subrange(self.request.part_start(i), self.request.part_end(i))) by {
            if let Some(part) = self.slots@[i].cached {
                self.request.lemma_parts(i);
                assert(self.slot_wf(i));
                assert(self.hit_from(i, pages, location));
                let id = self.slots@[i].index as u32;
                let offset = self.request.page_offset(i);
                let page = pages[(location, id)];
                assert(page.subrange(
                    self.request.part_start(i) - offset,
                    self.request.part_end(i) - offset,
                ) =~= object.subrange(self.request.part_start(i), self.request.part_end(i)));
            }
        }
    }

    /// Caching the fetched pages keeps a coherent cache coherent.
    pub proof fn lemma_backfill_keeps_coherent(
        &self,
        fetched: Seq<Seq<u8>>,
        location: Seq<char>,
        object: Seq<u8>,
        before: Map<PageKey, Seq<u8>>,
        after: Map<PageKey, Seq<u8>>,
    )
        requires
            self.wf(),
            object.len() == self.request.size,
            self.fetched_agree(fetched, object),
            coherent(before, location, object, self.request.page_size as int),
            self.backfilled(self.slots@.len() as int, location, fetched, before, after),
        ensures
            coherent(after, location, object, self.request.page_size as int),
    {
        assert forall|page_id: u32| #[trigger]
            after.contains_key((location, page_id)) implies after[(location, page_id)] == page_of(
            object,
            self.request.page_size as int,
            page_id as int,
        ) by {
            let key = (location, page_id);
            let page = after[key];
            if !(before.contains_key(key) && before[key] == page) {
                let i = choose|i: int|
                    0 <= i < self.slots@.len() && #[trigger] self.backfills_at(
                        i,
                        location,
                        fetched,
                        key,
                        page,
                    );
                self.request.lemma_parts(i);
                assert(self.slot_wf(i));
            }
        }
    }

    /// No page is fetched twice by one read: the ranges to
    /// fetch are those of different pages, one after the other. And no page
    /// that the cache had is fetched at all.
    pub proof fn lemma_each_missed_page_once(&self, j: int, k: int)
        requires
            self.wf(),
            0 <= j < k < self.missed_ranges().len(),
        ensures
            self.missed_ranges()[j].start < self.missed_ranges()[j].end
                <= self.missed_ranges()[k].start,
    {
        let n = self.slots@.len() as int;
        let a = self.lemma_slot_of_missed(n, j);
        let b = self.lemma_slot_of_missed(n, k);
        self.lemma_missed_ranges(a);
        self.lemma_missed_ranges(b);
        if b <= a {
            self.lemma_misses_before(b, a);
        }
        self.request.lemma_parts(a);
        self.request.lemma_parts(b);
        assert(self.slot_wf(a));
        assert(self.slot_wf(b));
        let p = self.request.page_size as int;
        let x = self.request.page_index(a);
        let y = self.request.page_index(b);
        assert((x + 1) * p <= y * p) by (nonlinear_arith)
            requires
                x + 1 <= y,
                p > 0,
        ;
        assert((x + 1) * p == x * p + p) by (nonlinear_arith);
    }

    /// The missed page that stands at place `j` among the first `i` slots'
    /// missed ones.
    proof fn lemma_slot_of_missed(&self, i: int, j: int) -> (slot: int)
        requires
            0 <= i <= self.slots@.len(),
            0 <= j < self.missed_before(i).len(),
        ensures
            0 <= slot < i,
            self.slots@[slot].cached is None,
            self.misses_before(slot) == j,
        decreases i,
    {
        self.lemma_misses_before(i, i);
        if i <= 0 {
            0
        } else {
            self.lemma_misses_before(i - 1, i - 1);
            if self.slots@[i - 1].cached is None && j == self.misses_before(i - 1) {
                i - 1
            } else {
                self.lemma_slot_of_missed(i - 1, j)
            }
        }
    }

    /// A read that is planned after the cache has
    /// forgotten the location takes nothing from the cache: every page of
    /// the read is fetched from the backing store.
    pub proof fn lemma_forgotten_location_is_fetched(
        &self,
        pages: Map<PageKey, Seq<u8>>,
        heads: Map<Seq<char>, ObjectMetaView>,
        location: Seq<char>,
    )
        requires
            crate::paging::forgotten(pages, heads, location),
            forall|i: int| 0 <= i < self.slots@.len() ==> #[trigger] self.hit_from(i, pages, location),
        ensures
            forall|i: int| 0 <= i < self.slots@.len() ==> (#[trigger] self.slots@[i]).cached is None,
            self.miss_count() == self.slots@.len(),
            self.missed_ranges().len() == self.slots@.len(),
    {
        assert forall|i: int| 0 <= i < self.slots@.len() implies (
        #[trigger] self.slots@[i]).cached is None by {
            assert(self.hit_from(i, pages, location));
        }
        self.lemma_all_missed(self.slots@.len() as int);
    }

    /// Where none of the first `i` pages was in the cache, all of them are
    /// missed.
    proof fn lemma_all_missed(&self, i: int)
        requires
            0 <= i <= self.slots@.len(),
            forall|k: int| 0 <= k < self.slots@.len() ==> (#[trigger] self.slots@[k]).cached is None,
        ensures
            self.misses_before(i) == i,
            self.missed_before(i).len() == i,
        decreases i,
    {
        if i > 0 {
            self.lemma_all_missed(i - 1);
        }
    }

    /// Two reads of the same range of an object that did not
    /// change in between return the same bytes, whatever each of them found
    /// in the cache and whatever it fetched.
    pub proof fn lemma_repeated_read_returns_same_bytes(
        &self,
        fetched: Seq<Seq<u8>>,
        again: &ReadPlan,
        fetched_again: Seq<Seq<u8>>,
        object: Seq<u8>,
    )
        requires
            self.wf(),
            again.wf(),
            again.request == self.request,
            object.len() == self.request.size,
            self.hits_agree(object),
            self.fetched_agree(fetched, object),
            again.hits_agree(object),
            again.fetched_agree(fetched_again, object),
        ensures
            self.assembled(fetched) == again.assembled(fetched_again),
    {
        self.lemma_read_returns_object_bytes(fetched, object);
        again.lemma_read_returns_object_bytes(fetched_again, object);
    }
}

/// A cache that has only dropped pages since it was coherent with an object
/// is coherent with it still.
pub proof fn lemma_coherent_submap(
    after: Map<PageKey, Seq<u8>>,
    before: Map<PageKey, Seq<u8>>,
    location: Seq<char>,
    object: Seq<u8>,
    page_size: int,
)
    requires
        after.submap_of(before),
    ensures
        coherent(before, location, object, page_size) ==> coherent(
            after,
            location,
            object,
            page_size,
        ),
{
    if coherent(before, location, object, page_size) {
        assert forall|page_id: u32| #[trigger]
            after.contains_key((location, page_id)) implies after[(location, page_id)]
            == page_of(object, page_size, page_id as int) by {
            assert(before.contains_key((location, page_id)));
        }
    }
}

/// A cache that has only dropped metadata since it knew the size of an
/// object knows nothing else of it now.
pub proof fn lemma_sized_submap(
    after: Map<Seq<char>, ObjectMetaView>,
    before: Map<Seq<char>, ObjectMetaView>,
    location: Seq<char>,
    object: Seq<u8>,
)
    requires
        after.submap_of(before),
    ensures
        sized(before, location, object) ==> sized(after, location, object),
{
}

/// A cache that has taken at most metadata with the size of an object knows
/// nothing else of the object.
pub proof fn lemma_sized_insert(
    after: Map<Seq<char>, ObjectMetaView>,
    before: Map<Seq<char>, ObjectMetaView>,
    location: Seq<char>,
    meta: ObjectMetaView,
    object: Seq<u8>,
)
    requires
        after.submap_of(before.insert(location, meta)),
        meta.size == object.len(),
    ensures
        sized(before, location, object) ==> sized(after, location, object),
{
    if after.contains_key(location) {
        assert(before.insert(location, meta).dom().contains(location));
    }
}

} // verus!
