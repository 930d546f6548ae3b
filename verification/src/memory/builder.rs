//! Building an in-memory page cache step by step.

use super::store::{duration_secs, duration_subsec_nanos, idle_time_allowed, IDLE_SECS_LIMIT};
use super::{InMemoryCache, DEFAULT_PAGE_SIZE, DEFAULT_TIME_TO_IDLE_SECS};
use crate::paging::PageCache;
use std::time::Duration;
use vstd::prelude::*;

verus! {

/// The settings of an [`InMemoryCache`] that is yet to be built.
pub struct InMemoryCacheBuilder {
    capacity: usize,
    page_size: usize,
    time_to_idle: Duration,
}

impl InMemoryCacheBuilder {
    /// The capacity that is set, in bytes.
    pub closed spec fn capacity_spec(&self) -> usize {
        self.capacity
    }

    /// The page size that is set, in bytes.
    pub closed spec fn page_size_spec(&self) -> usize {
        self.page_size
    }

    /// The idle time that is set.
    pub closed spec fn time_to_idle_spec(&self) -> Duration {
        self.time_to_idle
    }

    /// The settings are the defaults: pages of 16 KiB, dropped after 30
    /// idle minutes.
    pub open spec fn is_default(&self) -> bool {
        &&& self.page_size_spec() == DEFAULT_PAGE_SIZE
        &&& duration_secs(self.time_to_idle_spec()) == DEFAULT_TIME_TO_IDLE_SECS
        &&& duration_subsec_nanos(self.time_to_idle_spec()) == 0
    }

    /// The settings of a cache of `capacity` bytes, with the defaults for
    /// the rest.
    pub fn new(capacity: usize) -> (r: Self)
        ensures
            r.capacity_spec() == capacity,
            r.is_default(),
    {
        InMemoryCacheBuilder {
            capacity,
            page_size: DEFAULT_PAGE_SIZE,
            time_to_idle: Duration::from_secs(DEFAULT_TIME_TO_IDLE_SECS),
        }
    }

    /// Sets the page size, in bytes.
    pub fn page_size(&mut self, size: usize) -> (r: &mut Self)
        ensures
            r.page_size_spec() == size,
            r.capacity_spec() == old(self).capacity_spec(),
            r.time_to_idle_spec() == old(self).time_to_idle_spec(),
            *final(self) == *final(r),
    {
        self.page_size = size;
        self
    }

    /// Sets the time after which an idle entry is dropped.
    pub fn time_to_idle(&mut self, tti: Duration) -> (r: &mut Self)
        ensures
            r.time_to_idle_spec() == tti,
            r.capacity_spec() == old(self).capacity_spec(),
            r.page_size_spec() == old(self).page_size_spec(),
            *final(self) == *final(r),
    {
        self.time_to_idle = tti;
        self
    }

    /// Whether a cache can be built with the idle time that is set.
    pub fn can_build(&self) -> (r: bool)
        ensures
            r == idle_time_allowed(self.time_to_idle_spec()),
    {
        let secs = self.time_to_idle.as_secs();
        secs < IDLE_SECS_LIMIT || (secs == IDLE_SECS_LIMIT && self.time_to_idle.subsec_nanos() == 0)
    }

    /// An empty cache with these settings. The idle time must be one that
    /// a cache can be built with.
    pub fn build(&self) -> (r: InMemoryCache)
        requires
            idle_time_allowed(self.time_to_idle_spec()),
        ensures
            r.wf(),
            r.capacity_spec() == self.capacity_spec(),
            r.page_size_spec() == self.page_size_spec(),
            r.time_to_idle_spec() == self.time_to_idle_spec(),
            r.is_empty(),
    {
        InMemoryCache::with_params(self.capacity, self.page_size, self.time_to_idle)
    }

    /// An empty cache with these settings, or nothing where the idle time
    /// that is set is above a thousand years.
    pub fn try_build(&self) -> (r: Option<InMemoryCache>)
        ensures
            r is Some <==> idle_time_allowed(self.time_to_idle_spec()),
            r matches Some(cache) ==> {
                &&& cache.wf()
                &&& cache.capacity_spec() == self.capacity_spec()
                &&& cache.page_size_spec() == self.page_size_spec()
                &&& cache.time_to_idle_spec() == self.time_to_idle_spec()
                &&& cache.is_empty()
            },
    {
        if self.can_build() {
            Some(self.build())
        } else {
            None
        }
    }
}

} // verus!
