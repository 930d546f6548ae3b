use bytes::Bytes;
use ocra::error::{head_load_failure, page_load_failure};
use ocra::memory::store::page_weight;
use ocra::memory::{weight_in_bytes, InMemoryCache, InMemoryCacheBuilder, DEFAULT_PAGE_SIZE};
use ocra::paging::{part_of_page, ObjectMeta, PageCache};
use ocra::{Error, ErrorSource};
use std::sync::Arc;
use std::time::Duration;

fn meta_of(location: &str, size: usize) -> ObjectMeta {
    ObjectMeta {
        location: location.to_string(),
        last_modified_secs: 1_700_000_000,
        last_modified_nanos: 42,
        size,
        e_tag: Some("tag".to_string()),
        version: None,
    }
}

fn absent(path: &str) -> Error {
    Error::NotFound {
        path: path.to_string(),
        source: ErrorSource::Backend("no such file".to_string()),
    }
}

fn broken() -> Error {
    Error::Generic {
        store: "LocalFileSystem",
        source: ErrorSource::Backend("disk on fire".to_string()),
    }
}

fn sequential_integers(count: u64) -> Vec<u8> {
    let mut object = Vec::new();
    for i in 0..count {
        object.extend_from_slice(&i.to_be_bytes());
    }
    object
}

#[test]
fn test_get_range() {
    let mut cache = InMemoryCache::new(1024, 512);
    let location = "test.bin";
    let mut miss = 0;

    let data = cache
        .get_with(location, 0, || {
            miss += 1;
            Ok(Bytes::from("test data"))
        })
        .unwrap();
    assert_eq!(miss, 1);
    assert_eq!(data, Bytes::from("test data"));

    let data = cache
        .get_with(location, 0, || {
            miss += 1;
            Ok(Bytes::from("test data"))
        })
        .unwrap();
    assert_eq!(miss, 1);
    assert_eq!(data, Bytes::from("test data"));
}

#[test]
fn test_eviction() {
    const PAGE_SIZE: usize = 512;
    let mut cache = InMemoryCache::new(1024, PAGE_SIZE);
    let object = sequential_integers(1024);
    let location = "test.bin";
    cache.run_pending_tasks();

    let mut miss = 0;

    for (page_id, expected_miss, expected_size) in
        [(0u32, 1, 1u64), (0, 1, 1), (1, 2, 2), (4, 3, 2), (5, 4, 2)].iter()
    {
        let data = cache
            .get_with(location, *page_id, || {
                miss += 1;
                let start = PAGE_SIZE * (*page_id as usize);
                let end = PAGE_SIZE * (*page_id as usize + 1);
                Ok(Bytes::copy_from_slice(&object[start..end]))
            })
            .unwrap();
        assert_eq!(miss, *expected_miss);
        assert_eq!(data.len(), PAGE_SIZE);

        cache.run_pending_tasks();
        assert_eq!(cache.entry_count(), *expected_size);

        let mut buf = Vec::with_capacity(PAGE_SIZE);
        for i in page_id * PAGE_SIZE as u32 / 8..(page_id + 1) * PAGE_SIZE as u32 / 8 {
            buf.extend_from_slice(&(i as u64).to_be_bytes());
        }
        assert_eq!(data, buf);
    }
}

#[test]
fn test_head() {
    const PAGE_SIZE: usize = 512;
    let mut cache = InMemoryCache::new(1024, PAGE_SIZE);
    let path = "test.bin";

    let r = cache.head(path, || Err(absent(path)));
    assert!(matches!(r, Err(Error::NotFound { .. })));
    cache.run_pending_tasks();
    assert_eq!(cache.metadata_entry_count(), 0);

    let meta = cache.head(path, || Ok(meta_of(path, 9))).unwrap();
    assert_eq!(meta.size, 9);
}

#[test]
fn head_is_loaded_once() {
    let mut cache = InMemoryCache::new(1024, 512);
    let mut calls = 0;
    let first = cache
        .head("a.bin", || {
            calls += 1;
            Ok(meta_of("a.bin", 9))
        })
        .unwrap();
    let second = cache
        .head("a.bin", || {
            calls += 1;
            Ok(meta_of("a.bin", 10))
        })
        .unwrap();
    assert_eq!(calls, 1);
    assert_eq!(first.size, 9);
    assert_eq!(second.size, 9);
    assert_eq!(second.location, "a.bin");
    assert_eq!(second.last_modified_secs, 1_700_000_000);
    assert_eq!(second.last_modified_nanos, 42);
    assert_eq!(second.e_tag, Some("tag".to_string()));
    assert_eq!(second.version, None);
    cache.run_pending_tasks();
    assert_eq!(cache.metadata_entry_count(), 1);
}

#[test]
fn failed_head_leaves_nothing_cached() {
    let mut cache = InMemoryCache::new(1024, 512);
    let r = cache.head("gone.bin", || Err(absent("gone.bin")));
    assert!(r.is_err());
    assert!(cache.peek_head("gone.bin").is_none());
    let r = cache.head("gone.bin", || Err(broken()));
    assert!(matches!(r, Err(Error::Generic { .. })));
    assert!(cache.peek_head("gone.bin").is_none());
    cache.run_pending_tasks();
    assert_eq!(cache.metadata_entry_count(), 0);
}

#[test]
fn peek_head_finds_what_head_loaded() {
    let mut cache = InMemoryCache::new(1024, 512);
    assert!(cache.peek_head("a.bin").is_none());
    cache.head("a.bin", || Ok(meta_of("a.bin", 77))).unwrap();
    let found = cache.peek_head("a.bin").unwrap();
    assert_eq!(found.size, 77);
    assert!(cache.peek_head("b.bin").is_none());
}

#[test]
fn head_failure_keeps_the_loaders_path() {
    let mut cache = InMemoryCache::new(1024, 512);
    let r = cache.head("asked.bin", || Err(absent("other.bin")));
    match r {
        Err(Error::NotFound { path, source: ErrorSource::Wrapped(cause) }) => {
            assert_eq!(path, "other.bin");
            assert!(matches!(&*cause, Error::NotFound { path, .. } if path == "other.bin"));
        }
        other => panic!("unexpected: {:?}", other),
    }
}

#[test]
fn page_failure_names_the_location() {
    let mut cache = InMemoryCache::new(1024, 512);
    let r = cache.get_with("asked.bin", 3, || Err(absent("other.bin")));
    match r {
        Err(Error::NotFound { path, source: ErrorSource::Wrapped(cause) }) => {
            assert_eq!(path, "asked.bin");
            assert!(cause.is_not_found());
        }
        other => panic!("unexpected: {:?}", other),
    }
    let r = cache.get_with("asked.bin", 3, || Err(broken()));
    match r {
        Err(Error::Generic { store, source: ErrorSource::Wrapped(cause) }) => {
            assert_eq!(store, "InMemoryCache");
            assert!(matches!(&*cause, Error::Generic { store: "LocalFileSystem", .. }));
        }
        other => panic!("unexpected: {:?}", other),
    }
    assert!(cache.get("asked.bin", 3).is_none());
}

#[test]
fn load_failures_are_classified() {
    let failure = page_load_failure("a/b", Arc::new(absent("x")));
    assert!(matches!(&failure, Error::NotFound { path, .. } if path == "a/b"));
    assert!(failure.is_not_found());
    let failure = page_load_failure("a/b", Arc::new(broken()));
    assert!(matches!(&failure, Error::Generic { store: "InMemoryCache", .. }));
    assert!(!failure.is_not_found());
    let failure = head_load_failure(Arc::new(absent("x")));
    assert!(matches!(&failure, Error::NotFound { path, .. } if path == "x"));
    let failure = head_load_failure(Arc::new(broken()));
    assert!(matches!(&failure, Error::Generic { store: "InMemoryCache", .. }));
}

#[test]
fn put_then_get() {
    let mut cache = InMemoryCache::new(1024, 16);
    assert!(cache.get("a.bin", 0).is_none());
    cache.put("a.bin", 0, Bytes::from("0123456789abcdef"));
    cache.put("a.bin", 1, Bytes::from("ghij"));
    assert_eq!(cache.get("a.bin", 0).unwrap(), Bytes::from("0123456789abcdef"));
    assert_eq!(cache.get("a.bin", 1).unwrap(), Bytes::from("ghij"));
    assert!(cache.get("a.bin", 2).is_none());
    assert!(cache.get("b.bin", 0).is_none());
    cache.put("a.bin", 1, Bytes::from("klmn"));
    assert_eq!(cache.get("a.bin", 1).unwrap(), Bytes::from("klmn"));
}

#[test]
fn get_range_slices_the_page() {
    let mut cache = InMemoryCache::new(1024, 16);
    cache.put("a.bin", 0, Bytes::from("0123456789abcdef"));
    assert_eq!(cache.get_range("a.bin", 0, 2..5).unwrap(), Bytes::from("234"));
    assert_eq!(cache.get_range("a.bin", 0, 0..16).unwrap(), Bytes::from("0123456789abcdef"));
    assert_eq!(cache.get_range("a.bin", 0, 7..7).unwrap(), Bytes::new());
    assert!(cache.get_range("a.bin", 1, 0..1).is_none());
}

#[test]
fn get_range_beyond_a_short_page_is_a_miss() {
    let mut cache = InMemoryCache::new(1024, 16);
    cache.put("a.bin", 0, Bytes::from("short"));
    assert_eq!(cache.get_range("a.bin", 0, 0..5).unwrap(), Bytes::from("short"));
    assert!(cache.get_range("a.bin", 0, 0..6).is_none());
    assert!(cache.get_range("a.bin", 0, 4..2).is_none());
}

#[test]
fn get_range_with_loads_then_slices() {
    let mut cache = InMemoryCache::new(1024, 16);
    let mut calls = 0;
    let part = cache
        .get_range_with("a.bin", 2, 4..8, || {
            calls += 1;
            Ok(Bytes::from("0123456789abcdef"))
        })
        .unwrap();
    assert_eq!(part, Bytes::from("4567"));
    let part = cache
        .get_range_with("a.bin", 2, 0..2, || {
            calls += 1;
            Ok(Bytes::from("0123456789abcdef"))
        })
        .unwrap();
    assert_eq!(part, Bytes::from("01"));
    assert_eq!(calls, 1);
    let r = cache.get_range_with("a.bin", 3, 0..2, || Err(absent("a.bin")));
    assert!(matches!(r, Err(Error::NotFound { .. })));
}

#[test]
fn invalidate_forgets_pages_and_metadata() {
    let mut cache = InMemoryCache::new(1024, 16);
    cache.put("a.bin", 0, Bytes::from("old bytes"));
    cache.put("b.bin", 0, Bytes::from("kept"));
    cache.head("a.bin", || Ok(meta_of("a.bin", 9))).unwrap();
    cache.invalidate("a.bin");
    assert!(cache.get("a.bin", 0).is_none());
    assert!(cache.peek_head("a.bin").is_none());
    assert_eq!(cache.get("b.bin", 0).unwrap(), Bytes::from("kept"));
    let mut calls = 0;
    let data = cache
        .get_with("a.bin", 0, || {
            calls += 1;
            Ok(Bytes::from("new bytes"))
        })
        .unwrap();
    assert_eq!(calls, 1);
    assert_eq!(data, Bytes::from("new bytes"));
}

#[test]
fn invalidate_leaves_the_stores_alone() {
    let mut cache = InMemoryCache::new(1024, 16);
    cache.put("a.bin", 0, Bytes::from("old bytes"));
    cache.run_pending_tasks();
    assert_eq!(cache.entry_count(), 1);
    cache.invalidate("a.bin");
    cache.run_pending_tasks();
    assert_eq!(cache.entry_count(), 1);
    assert!(cache.get("a.bin", 0).is_none());
}

#[test]
fn location_ids_are_given_in_order_and_never_twice() {
    let mut cache = InMemoryCache::new(1024, 16);
    assert_eq!(cache.location_id("a"), Some(0));
    assert_eq!(cache.location_id("b"), Some(1));
    assert_eq!(cache.location_id("a"), Some(0));
    assert_eq!(cache.location_id("c"), Some(2));
    cache.invalidate("a");
    assert_eq!(cache.location_id("b"), Some(1));
    assert_eq!(cache.location_id("a"), Some(3));
    cache.invalidate("missing");
    assert_eq!(cache.location_id("missing"), Some(4));
}

#[test]
fn more_pages_than_fit_are_evicted() {
    const PAGE_SIZE: usize = 64;
    const CAPACITY: usize = 4 * PAGE_SIZE + 10;
    let fit = (CAPACITY / PAGE_SIZE) as u64;
    let mut cache = InMemoryCache::new(CAPACITY, PAGE_SIZE);
    for page_id in 0..(fit as u32 + 1) {
        cache.put("a.bin", page_id, Bytes::from(vec![page_id as u8; PAGE_SIZE]));
        cache.run_pending_tasks();
        assert!(cache.entry_count() <= fit);
        assert!(cache.size() <= CAPACITY);
    }
    assert_eq!(cache.entry_count(), fit);
    let mut held = 0;
    for page_id in 0..(fit as u32 + 1) {
        if let Some(page) = cache.get("a.bin", page_id) {
            assert_eq!(page, Bytes::from(vec![page_id as u8; PAGE_SIZE]));
            held += 1;
        }
    }
    assert_eq!(held, fit);
}

#[test]
fn size_is_the_weight_of_the_pages() {
    let mut cache = InMemoryCache::new(1024, 16);
    assert_eq!(cache.size(), 0);
    cache.put("a.bin", 0, Bytes::from("0123456789abcdef"));
    cache.put("a.bin", 1, Bytes::from("0123"));
    cache.run_pending_tasks();
    assert_eq!(cache.size(), 20);
    assert_eq!(cache.entry_count(), 2);
}

#[test]
fn page_weight_is_the_length() {
    assert_eq!(page_weight(&Bytes::new()), 0);
    assert_eq!(page_weight(&Bytes::from("test data")), 9);
    assert_eq!(page_weight(&Bytes::from(vec![0u8; 70_000])), 70_000);
}

#[test]
fn new_cache_reports_its_settings() {
    let cache = InMemoryCache::new(4096, 512);
    assert_eq!(cache.page_size(), 512);
    assert_eq!(cache.capacity(), 4096);
    assert_eq!(cache.time_to_idle(), Duration::from_secs(30 * 60));
    assert_eq!(cache.entry_count(), 0);
    assert_eq!(cache.metadata_entry_count(), 0);
}

#[test]
fn builder_defaults_and_settings() {
    let cache = InMemoryCache::builder(8 * 1024 * 1024).build();
    assert_eq!(cache.capacity(), 8 * 1024 * 1024);
    assert_eq!(cache.page_size(), DEFAULT_PAGE_SIZE);
    assert_eq!(DEFAULT_PAGE_SIZE, 16 * 1024);
    assert_eq!(cache.time_to_idle(), Duration::from_secs(30 * 60));

    let cache = InMemoryCache::builder(8 * 1024 * 1024)
        .page_size(4096)
        .time_to_idle(Duration::from_secs(60))
        .build();
    assert_eq!(cache.capacity(), 8 * 1024 * 1024);
    assert_eq!(cache.page_size(), 4096);
    assert_eq!(cache.time_to_idle(), Duration::from_secs(60));

    let mut builder = InMemoryCacheBuilder::new(100);
    builder.page_size(10);
    builder.page_size(20);
    assert_eq!(builder.build().page_size(), 20);
}

#[test]
fn builder_refuses_an_idle_time_above_a_thousand_years() {
    let limit = 1000 * 365 * 24 * 3600;
    let mut builder = InMemoryCache::builder(1024);
    assert!(builder.can_build());
    builder.time_to_idle(Duration::from_secs(limit));
    assert!(builder.can_build());
    assert!(builder.try_build().is_some());
    builder.time_to_idle(Duration::new(limit, 1));
    assert!(!builder.can_build());
    assert!(builder.try_build().is_none());
    builder.time_to_idle(Duration::from_secs(limit + 1));
    assert!(!builder.can_build());
    builder.time_to_idle(Duration::new(limit - 1, 999_999_999));
    assert!(builder.can_build());
    let cache = builder.page_size(7).try_build().unwrap();
    assert_eq!(cache.page_size(), 7);
}

#[test]
fn idle_entries_are_dropped() {
    let mut cache = InMemoryCache::with_params(1024, 16, Duration::from_millis(500));
    cache.put("a.bin", 0, Bytes::from("soon gone"));
    assert_eq!(cache.get("a.bin", 0).unwrap(), Bytes::from("soon gone"));
    let begun = std::time::Instant::now();
    while begun.elapsed() < Duration::from_millis(1000) {
        std::hint::spin_loop();
    }
    assert!(cache.get("a.bin", 0).is_none());
    cache.run_pending_tasks();
    assert_eq!(cache.entry_count(), 0);
}

#[test]
fn weight_in_bytes_is_the_weight() {
    assert_eq!(weight_in_bytes(0), 0);
    assert_eq!(weight_in_bytes(20), 20);
    assert_eq!(weight_in_bytes(1 << 31), 1 << 31);
    assert_eq!(weight_in_bytes(usize::MAX as u64), usize::MAX);
    if (usize::MAX as u64) < u64::MAX {
        assert_eq!(weight_in_bytes(u64::MAX), usize::MAX);
    }
}

#[test]
fn counts_stay_until_the_cache_is_used() {
    let mut cache = InMemoryCache::new(1024, 16);
    cache.put("a.bin", 0, Bytes::from("0123456789abcdef"));
    cache.head("a.bin", || Ok(meta_of("a.bin", 16))).unwrap();
    cache.run_pending_tasks();
    assert_eq!(cache.entry_count(), 1);
    assert_eq!(cache.entry_count(), 1);
    assert_eq!(cache.metadata_entry_count(), 1);
    assert_eq!(cache.metadata_entry_count(), 1);
    assert_eq!(cache.size(), 16);
    assert_eq!(cache.size(), 16);
}

#[test]
fn part_of_page_is_the_range_within_the_page() {
    let page = Bytes::from("0123456789");
    assert_eq!(part_of_page(Some(page.clone()), 2..5), Some(Bytes::from("234")));
    assert_eq!(part_of_page(Some(page.clone()), 0..10), Some(page.clone()));
    assert_eq!(part_of_page(Some(page.clone()), 10..10), Some(Bytes::new()));
    assert_eq!(part_of_page(Some(page.clone()), 0..11), None);
    assert_eq!(part_of_page(Some(page.clone()), 11..11), None);
    assert_eq!(part_of_page(Some(page), 5..2), None);
    assert_eq!(part_of_page(None, 0..0), None);
}

#[test]
fn a_new_cache_has_counted_nothing() {
    let cache = InMemoryCache::new(1024 * 1024, 1024);
    assert_eq!(cache.size(), 0);
    assert_eq!(cache.entry_count(), 0);
    assert_eq!(cache.metadata_entry_count(), 0);
    let builder = InMemoryCache::builder(8 * 1024 * 1024);
    let first = builder.build();
    let second = builder.build();
    assert_eq!(first.size(), 0);
    assert_eq!(second.size(), 0);
    assert_eq!(second.capacity(), 8 * 1024 * 1024);
}

#[test]
fn invalidate_and_head_leave_the_page_counts() {
    let mut cache = InMemoryCache::new(1024, 16);
    cache.put("a.bin", 0, Bytes::from("0123456789abcdef"));
    cache.put("b.bin", 0, Bytes::from("0123"));
    cache.run_pending_tasks();
    assert_eq!((cache.size(), cache.entry_count()), (20, 2));
    cache.invalidate("a.bin");
    assert_eq!((cache.size(), cache.entry_count()), (20, 2));
    cache.invalidate("never seen");
    cache.invalidate("a.bin");
    assert_eq!((cache.size(), cache.entry_count()), (20, 2));
    cache.head("b.bin", || Ok(meta_of("b.bin", 4))).unwrap();
    assert!(cache.head("c.bin", || Err(absent("c.bin"))).is_err());
    assert_eq!((cache.size(), cache.entry_count()), (20, 2));
    assert_eq!(cache.get("b.bin", 0).unwrap(), Bytes::from("0123"));
}
