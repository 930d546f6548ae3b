use bytes::Bytes;
use ocra::layout::ReadRequest;
use ocra::memory::InMemoryCache;
use ocra::paging::{ObjectMeta, PageCache};
use ocra::read_through::{ReadPlan, WriteOp};
use ocra::{Error, ErrorSource, ReadThroughCache};
use std::ops::Range;

fn meta_for(location: &str, object: &[u8]) -> ObjectMeta {
    ObjectMeta {
        location: location.to_string(),
        last_modified_secs: 0,
        last_modified_nanos: 0,
        size: object.len(),
        e_tag: None,
        version: None,
    }
}

fn fetch_from(object: &[u8], ranges: &[Range<usize>]) -> Vec<Bytes> {
    ranges.iter().map(|r| Bytes::copy_from_slice(&object[r.clone()])).collect()
}

fn engine(capacity: usize, page_size: usize) -> ReadThroughCache<InMemoryCache> {
    ReadThroughCache::new(InMemoryCache::new(capacity, page_size))
}

fn read(
    cache: &mut ReadThroughCache<InMemoryCache>,
    location: &str,
    object: &[u8],
    range: Range<usize>,
    fetches: &mut Vec<Vec<Range<usize>>>,
) -> Bytes {
    cache
        .get_range(
            location,
            range,
            || Ok(meta_for(location, object)),
            |ranges: Vec<Range<usize>>| {
                let pages = fetch_from(object, &ranges);
                fetches.push(ranges);
                Ok(pages)
            },
        )
        .unwrap()
}

fn sequential_integers(count: u64) -> Vec<u8> {
    let mut object = Vec::new();
    for i in 0..count {
        object.extend_from_slice(&i.to_be_bytes());
    }
    object
}

#[test]
fn test_get_end_of_file() {
    let mut cache = engine(1024 * 1024, 1024);
    let object = b"this is a long text".to_vec();
    let path = "temp.txt";
    let meta = cache.head(path, || Ok(meta_for(path, &object))).unwrap();

    let mut fetches = Vec::new();
    let data = read(&mut cache, path, &object, 10..meta.size, &mut fetches);
    assert_eq!(data.len(), 9);
    println!("Data: {:?}", data);
    assert_eq!(data, "long text".as_bytes());
}

#[test]
fn range_past_the_end_returns_the_trailing_bytes() {
    let mut cache = engine(1024 * 1024, 1024);
    let object = b"this is a long text".to_vec();
    let mut fetches = Vec::new();
    let data = read(&mut cache, "t.txt", &object, 10..100, &mut fetches);
    assert_eq!(data, "long text".as_bytes());
    assert_eq!(fetches, vec![vec![0..19]]);
    let data = read(&mut cache, "t.txt", &object, 10..100, &mut fetches);
    assert_eq!(data, "long text".as_bytes());
    let data = read(&mut cache, "t.txt", &object, 0..usize::MAX, &mut fetches);
    assert_eq!(data, "this is a long text".as_bytes());
    assert_eq!(fetches.len(), 1);
}

#[test]
fn range_at_or_after_the_end_is_empty() {
    let mut cache = engine(1024, 4);
    let object = b"0123456789".to_vec();
    let mut fetches = Vec::new();
    assert_eq!(read(&mut cache, "o", &object, 10..20, &mut fetches).len(), 0);
    assert_eq!(read(&mut cache, "o", &object, 50..60, &mut fetches).len(), 0);
    assert_eq!(read(&mut cache, "o", &object, 3..3, &mut fetches).len(), 0);
    assert_eq!(read(&mut cache, "o", &object, 7..2, &mut fetches).len(), 0);
    assert!(fetches.is_empty());
    let empty: Vec<u8> = Vec::new();
    assert_eq!(read(&mut cache, "e", &empty, 0..10, &mut fetches).len(), 0);
    assert!(fetches.is_empty());
}

#[test]
fn repeated_read_fetches_each_page_once() {
    let mut cache = engine(1024, 16);
    let object = b"test data".to_vec();
    let mut heads = 0;
    let mut fetches = 0;
    for _ in 0..2 {
        let data = cache
            .get_range(
                "test.bin",
                0..9,
                || {
                    heads += 1;
                    Ok(meta_for("test.bin", &object))
                },
                |ranges: Vec<Range<usize>>| {
                    fetches += 1;
                    Ok(fetch_from(&object, &ranges))
                },
            )
            .unwrap();
        assert_eq!(data, Bytes::from("test data"));
    }
    assert_eq!(heads, 1);
    assert_eq!(fetches, 1);
}

#[test]
fn each_page_holds_its_integers() {
    const PAGE_SIZE: usize = 512;
    let object = sequential_integers(1024);
    let mut cache = engine(64 * 1024, PAGE_SIZE);
    let mut fetches = Vec::new();
    for k in [0usize, 1, 4, 5, 15, 4] {
        let data = read(&mut cache, "ints", &object, k * PAGE_SIZE..(k + 1) * PAGE_SIZE, &mut fetches);
        let mut expected = Vec::new();
        for i in (k * PAGE_SIZE / 8) as u64..((k + 1) * PAGE_SIZE / 8) as u64 {
            expected.extend_from_slice(&i.to_be_bytes());
        }
        assert_eq!(data, expected);
    }
    assert_eq!(
        fetches,
        vec![
            vec![0..512],
            vec![512..1024],
            vec![2048..2560],
            vec![2560..3072],
            vec![7680..8192]
        ]
    );
}

#[test]
fn hits_and_misses_are_merged_in_page_order() {
    let object: Vec<u8> = (0..40u8).collect();
    let mut cache = engine(1024, 8);
    cache.cache.put("o", 1, Bytes::copy_from_slice(&object[8..16]));
    cache.cache.put("o", 3, Bytes::copy_from_slice(&object[24..32]));
    let mut fetches = Vec::new();
    let data = read(&mut cache, "o", &object, 5..37, &mut fetches);
    assert_eq!(data, &object[5..37]);
    assert_eq!(fetches, vec![vec![0..8, 16..24, 32..40]]);
    let data = read(&mut cache, "o", &object, 0..40, &mut fetches);
    assert_eq!(data, &object[..]);
    assert_eq!(fetches.len(), 1);
}

#[test]
fn last_page_is_short() {
    let object: Vec<u8> = (0..21u8).collect();
    let mut cache = engine(1024, 8);
    let mut fetches = Vec::new();
    let data = read(&mut cache, "o", &object, 17..21, &mut fetches);
    assert_eq!(data, &object[17..21]);
    assert_eq!(fetches, vec![vec![16..21]]);
    assert_eq!(cache.cache.get("o", 2).unwrap(), &object[16..21]);
}

#[test]
fn plan_then_finish() {
    let object: Vec<u8> = (0..30u8).collect();
    let mut cache = engine(1024, 10);
    cache.cache.put("o", 1, Bytes::copy_from_slice(&object[10..20]));

    let plan = cache.plan_range("o", 3..25, object.len());
    assert_eq!(plan.request.start, 3);
    assert_eq!(plan.request.end, 25);
    assert_eq!(plan.request.page_size, 10);
    assert_eq!(plan.request.size, 30);
    assert_eq!(plan.slots.len(), 3);
    assert_eq!(plan.slots[0].index, 0);
    assert_eq!(plan.slots[0].page, 0..10);
    assert!(plan.slots[0].cached.is_none());
    assert_eq!(plan.slots[1].index, 1);
    assert_eq!(plan.slots[1].page, 10..20);
    assert_eq!(plan.slots[1].cached, Some(Bytes::copy_from_slice(&object[10..20])));
    assert_eq!(plan.slots[2].index, 2);
    assert_eq!(plan.slots[2].page, 20..30);
    assert!(plan.slots[2].cached.is_none());

    let missed = plan.missed();
    assert_eq!(missed, vec![0..10, 20..30]);
    let fetched = fetch_from(&object, &missed);
    assert!(plan.answered_by(&fetched));
    let data = cache.finish_range("o", plan, fetched).unwrap();
    assert_eq!(data, &object[3..25]);
    assert_eq!(cache.cache.get("o", 0).unwrap(), &object[0..10]);
    assert_eq!(cache.cache.get("o", 2).unwrap(), &object[20..30]);

    let plan = cache.plan_range("o", 3..25, object.len());
    assert!(plan.missed().is_empty());
    assert_eq!(plan.slots[0].cached, Some(Bytes::copy_from_slice(&object[3..10])));
    assert_eq!(plan.slots[2].cached, Some(Bytes::copy_from_slice(&object[20..25])));
    let data = cache.finish_range("o", plan, Vec::new()).unwrap();
    assert_eq!(data, &object[3..25]);
}

#[test]
fn pages_that_were_not_asked_for_are_refused() {
    let object: Vec<u8> = (0..30u8).collect();
    let mut cache = engine(1024, 10);

    let plan = cache.plan_range("o", 0..30, object.len());
    assert!(!plan.answered_by(&Vec::new()));
    let r = cache.finish_range("o", plan, Vec::new());
    match r {
        Err(Error::Generic { store, source: ErrorSource::Backend(message) }) => {
            assert_eq!(store, "ReadThroughCache");
            assert_eq!(message, "the fetched pages are not the pages that were asked for");
        }
        other => panic!("unexpected: {:?}", other),
    }

    let plan = cache.plan_range("o", 0..30, object.len());
    let mut short = fetch_from(&object, &plan.missed());
    short[1] = Bytes::from("short");
    assert!(!plan.answered_by(&short));
    assert!(cache.finish_range("o", plan, short).is_err());
    assert!(cache.cache.get("o", 0).is_none());

    let plan = cache.plan_range("o", 0..30, object.len());
    let mut many = fetch_from(&object, &plan.missed());
    many.push(Bytes::from("one too many"));
    assert!(!plan.answered_by(&many));
    assert!(cache.finish_range("o", plan, many).is_err());

    let mut other = engine(1024, 5);
    let plan = other.plan_range("o", 0..30, object.len());
    let fetched = fetch_from(&object, &plan.missed());
    assert!(plan.answered_by(&fetched));
    assert!(cache.finish_range("o", plan, fetched).is_err());
}

#[test]
fn failures_of_the_store_come_back() {
    let mut cache = engine(1024, 10);
    let r = cache.get_range(
        "gone",
        0..10,
        || {
            Err(Error::NotFound {
                path: "gone".to_string(),
                source: ErrorSource::Backend("no such object".to_string()),
            })
        },
        |_ranges: Vec<Range<usize>>| Ok(Vec::new()),
    );
    match r {
        Err(Error::NotFound { path, source: ErrorSource::Wrapped(cause) }) => {
            assert_eq!(path, "gone");
            assert!(cause.is_not_found());
        }
        other => panic!("unexpected: {:?}", other),
    }
    assert!(cache.peek_head("gone").is_none());

    let object = b"0123456789".to_vec();
    let r = cache.get_range(
        "o",
        0..10,
        || Ok(meta_for("o", &object)),
        |_ranges: Vec<Range<usize>>| {
            Err(Error::Generic {
                store: "S3",
                source: ErrorSource::Backend("timeout".to_string()),
            })
        },
    );
    match r {
        Err(Error::Generic { store, source: ErrorSource::Backend(message) }) => {
            assert_eq!(store, "S3");
            assert_eq!(message, "timeout");
        }
        other => panic!("unexpected: {:?}", other),
    }
    assert!(cache.cache.get("o", 0).is_none());

    let r = cache.get_range(
        "o",
        0..10,
        || Ok(meta_for("o", &object)),
        |_ranges: Vec<Range<usize>>| Ok(vec![Bytes::from("short")]),
    );
    assert!(matches!(r, Err(Error::Generic { store: "ReadThroughCache", .. })));
}

#[test]
fn a_write_invalidates_what_was_cached() {
    let old = b"old old old old old!".to_vec();
    let new = b"brand new".to_vec();
    let ops = [
        WriteOp::Put { location: "o" },
        WriteOp::PutMultipart { location: "o" },
        WriteOp::Delete { location: "o" },
        WriteOp::Copy { from: "src", to: "o" },
        WriteOp::CopyIfNotExists { from: "src", to: "o" },
    ];
    for op in ops.iter() {
        let mut cache = engine(1024, 8);
        let mut fetches = Vec::new();
        assert_eq!(read(&mut cache, "o", &old, 0..20, &mut fetches), &old[..]);
        assert_eq!(read(&mut cache, "src", &old, 0..20, &mut fetches), &old[..]);
        assert_eq!(fetches.len(), 2);
        assert_eq!(op.destination(), "o");
        cache.prepare_write(op);
        assert!(cache.peek_head("o").is_none());
        for page_id in 0..3 {
            assert!(cache.cache.get("o", page_id).is_none());
        }
        assert_eq!(read(&mut cache, "o", &new, 0..20, &mut fetches), &new[..]);
        assert_eq!(fetches.len(), 3);
        assert_eq!(fetches[2], vec![0..8, 8..9]);
        assert_eq!(read(&mut cache, "src", &old, 0..20, &mut fetches), &old[..]);
        assert_eq!(fetches.len(), 3);
    }
}

#[test]
fn copy_invalidates_the_destination_only() {
    let op = WriteOp::Copy { from: "a", to: "b" };
    assert_eq!(op.destination(), "b");
    let mut cache = engine(1024, 8);
    cache.cache.put("a", 0, Bytes::from("aaaa"));
    cache.cache.put("b", 0, Bytes::from("bbbb"));
    cache.prepare_write(&op);
    assert_eq!(cache.cache.get("a", 0).unwrap(), Bytes::from("aaaa"));
    assert!(cache.cache.get("b", 0).is_none());
    cache.invalidate("a");
    assert!(cache.cache.get("a", 0).is_none());
}

#[test]
fn whole_object_is_read_in_page_sized_chunks() {
    let cache = engine(1024, 8);
    assert_eq!(cache.chunk_count(0), 0);
    assert_eq!(cache.chunk(0, 0), None);
    assert_eq!(cache.chunk_count(1), 1);
    assert_eq!(cache.chunk(1, 0), Some(0..1));
    assert_eq!(cache.chunk_count(8), 1);
    assert_eq!(cache.chunk(8, 0), Some(0..8));
    assert_eq!(cache.chunk(8, 1), None);
    assert_eq!(cache.chunk_count(21), 3);
    assert_eq!(cache.chunk(21, 0), Some(0..8));
    assert_eq!(cache.chunk(21, 1), Some(8..16));
    assert_eq!(cache.chunk(21, 2), Some(16..21));
    assert_eq!(cache.chunk(21, 3), None);
    assert_eq!(cache.chunk_count(usize::MAX), usize::MAX / 8 + 1);
    assert_eq!(cache.chunk(usize::MAX, usize::MAX / 8), Some(usize::MAX - 7..usize::MAX));
}

#[test]
fn chunks_put_together_are_the_object() {
    let object: Vec<u8> = (0..100u8).collect();
    let mut cache = engine(4096, 16);
    let mut fetches = Vec::new();
    let mut whole = Vec::new();
    for index in 0..cache.chunk_count(object.len()) {
        let range = cache.chunk(object.len(), index).unwrap();
        whole.extend_from_slice(&read(&mut cache, "o", &object, range, &mut fetches));
    }
    assert_eq!(whole, object);
    assert_eq!(fetches.len(), 7);
}

#[test]
fn parallelism_is_at_least_one() {
    let cache = engine(1024, 8);
    assert!(cache.parallelism >= 1);
    assert_eq!(cache.cache.page_size(), 8);
    assert_eq!(cache.cache.capacity(), 1024);
}

#[test]
fn a_plan_of_nothing_has_no_slots() {
    let mut cache = engine(1024, 8);
    let plan: ReadPlan = cache.plan_range("o", 5..5, 100);
    assert!(plan.slots.is_empty());
    assert!(plan.missed().is_empty());
    assert!(plan.answered_by(&Vec::new()));
    assert_eq!(cache.finish_range("o", plan, Vec::new()).unwrap().len(), 0);
    let request = ReadRequest { start: 5, end: 5, page_size: 8, size: 100 };
    assert_eq!(request.start, request.end);
}

#[test]
fn evicted_pages_are_fetched_again() {
    const PAGE_SIZE: usize = 64;
    let object: Vec<u8> = (0..=255u8).cycle().take(64 * 10).collect();
    let mut cache = engine(2 * PAGE_SIZE, PAGE_SIZE);
    let mut fetches = Vec::new();
    for round in 0..3 {
        for k in 0..10 {
            let data = read(&mut cache, "o", &object, k * PAGE_SIZE..(k + 1) * PAGE_SIZE, &mut fetches);
            assert_eq!(data, &object[k * PAGE_SIZE..(k + 1) * PAGE_SIZE], "round {}", round);
            cache.cache.run_pending_tasks();
            assert!(cache.cache.entry_count() <= 2);
        }
    }
    assert!(fetches.len() > 10);
}

#[test]
fn a_read_caches_the_pages_it_touches_and_no_other() {
    let object = b"0123456789abcdefghij".to_vec();
    let mut cache = engine(1024, 8);
    let mut fetches = Vec::new();
    let data = read(&mut cache, "o", &object, 9..11, &mut fetches);
    assert_eq!(data, Bytes::from("9a"));
    assert_eq!(fetches, vec![vec![8..16]]);
    assert_eq!(cache.cache.get("o", 1), Some(Bytes::from("89abcdef")));
    assert_eq!(cache.cache.get("o", 0), None);
    assert_eq!(cache.cache.get("o", 2), None);
    cache.cache.run_pending_tasks();
    assert_eq!(cache.cache.entry_count(), 1);
}

#[test]
fn a_failed_fetch_caches_no_page() {
    let object = b"0123456789abcdefghij".to_vec();
    let mut cache = engine(1024, 8);
    cache.cache.put("o", 0, Bytes::from("01234567"));
    cache.cache.put("other", 5, Bytes::from("kept"));
    let r = cache.get_range(
        "o",
        0..20,
        || Ok(meta_for("o", &object)),
        |_ranges: Vec<Range<usize>>| {
            Err(Error::Generic { store: "S3", source: ErrorSource::Backend("down".to_string()) })
        },
    );
    assert!(matches!(r, Err(Error::Generic { store: "S3", .. })));
    assert_eq!(cache.cache.get("o", 0), Some(Bytes::from("01234567")));
    assert_eq!(cache.cache.get("o", 1), None);
    assert_eq!(cache.cache.get("o", 2), None);
    assert_eq!(cache.cache.get("other", 5), Some(Bytes::from("kept")));
    cache.cache.run_pending_tasks();
    assert_eq!(cache.cache.entry_count(), 2);
}

#[test]
fn the_worker_limit_is_what_was_given() {
    let cache = ReadThroughCache::with_parallelism(InMemoryCache::new(1024, 8), 7);
    assert_eq!(cache.parallelism, 7);
    assert_eq!(cache.cache.page_size(), 8);
    assert_eq!(cache.chunk_count(17), 3);
}

#[test]
fn copy_if_not_exists_leaves_the_source_cached() {
    let mut cache = engine(1024, 8);
    cache.cache.put("from", 0, Bytes::from("aaaa"));
    cache.cache.put("from", 1, Bytes::from("bbbb"));
    cache.cache.put("to", 0, Bytes::from("cccc"));
    cache.cache.head("from", || Ok(meta_for("from", b"aaaabbbb"))).unwrap();
    cache.prepare_write(&WriteOp::CopyIfNotExists { from: "from", to: "to" });
    assert_eq!(cache.cache.get("from", 0), Some(Bytes::from("aaaa")));
    assert_eq!(cache.cache.get("from", 1), Some(Bytes::from("bbbb")));
    assert_eq!(cache.peek_head("from").unwrap().size, 8);
    assert_eq!(cache.cache.get("to", 0), None);
}
