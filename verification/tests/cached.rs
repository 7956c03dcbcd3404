use craftsql::cached::{
    page_to_copy, prefetch_outcome, removed_by_either, unserved, CacheConfig, CachingPageStore,
    Prefetched,
};
use craftsql::cid::{Cid, Page, PageStoreError};
use craftsql::page_table::PageTable;
use craftsql::store::PageStore;
use std::collections::HashMap;

/// In-memory page store.
struct MemStore {
    pages: HashMap<Cid, Vec<u8>>,
    root: Option<Cid>,
    named_roots: HashMap<String, Cid>,
    gets: u64,
}

impl MemStore {
    fn new() -> Self {
        Self { pages: HashMap::new(), root: None, named_roots: HashMap::new(), gets: 0 }
    }
}

impl PageStore for MemStore {
    fn get(&mut self, cid: &Cid) -> Result<Page, PageStoreError> {
        self.gets += 1;
        self.pages.get(cid).map(|d| Page { data: d.clone() }).ok_or(PageStoreError::NotFound(*cid))
    }

    fn put(&mut self, page: &Page) -> Result<Cid, PageStoreError> {
        let cid = Cid::from_bytes(&page.data);
        self.pages.entry(cid).or_insert_with(|| page.data.clone());
        Ok(cid)
    }

    fn update_root(&mut self, new_root: Cid) -> Result<(), PageStoreError> {
        self.root = if new_root.is_null() { None } else { Some(new_root) };
        Ok(())
    }

    fn current_root(&mut self) -> Result<Option<Cid>, PageStoreError> {
        Ok(self.root)
    }

    fn set_named_root(&mut self, name: &str, cid: Cid) -> Result<(), PageStoreError> {
        self.named_roots.insert(name.to_string(), cid);
        Ok(())
    }

    fn get_named_root(&mut self, name: &str) -> Result<Option<Cid>, PageStoreError> {
        Ok(self.named_roots.get(name).copied())
    }

    fn remove_named_root(&mut self, name: &str) -> Result<bool, PageStoreError> {
        Ok(self.named_roots.remove(name).is_some())
    }

    fn list_named_roots(&mut self) -> Result<Vec<(String, Cid)>, PageStoreError> {
        let mut v: Vec<_> = self.named_roots.iter().map(|(k, v)| (k.clone(), *v)).collect();
        v.sort_by(|a, b| a.0.cmp(&b.0));
        Ok(v)
    }
}

impl MemStore {
    fn populate_with_pages(&mut self, page_count: usize) -> Vec<Cid> {
        let mut cids = Vec::new();
        for i in 0..page_count {
            let data = format!("page {} data", i);
            let page = Page { data: data.into_bytes() };
            let cid = self.put(&page).unwrap();
            cids.push(cid);
        }
        cids
    }
}

/// A store that fails every call with a storage error.
struct Broken;

impl PageStore for Broken {
    fn get(&mut self, _cid: &Cid) -> Result<Page, PageStoreError> {
        Err(PageStoreError::Storage("CID mismatch".to_string()))
    }
    fn put(&mut self, _page: &Page) -> Result<Cid, PageStoreError> {
        Err(PageStoreError::Storage("broken".to_string()))
    }
    fn update_root(&mut self, _new_root: Cid) -> Result<(), PageStoreError> {
        Err(PageStoreError::Storage("broken".to_string()))
    }
    fn current_root(&mut self) -> Result<Option<Cid>, PageStoreError> {
        Err(PageStoreError::Storage("broken".to_string()))
    }
    fn set_named_root(&mut self, _name: &str, _cid: Cid) -> Result<(), PageStoreError> {
        Err(PageStoreError::Storage("broken".to_string()))
    }
    fn get_named_root(&mut self, _name: &str) -> Result<Option<Cid>, PageStoreError> {
        Err(PageStoreError::Storage("broken".to_string()))
    }
    fn remove_named_root(&mut self, _name: &str) -> Result<bool, PageStoreError> {
        Err(PageStoreError::Storage("broken".to_string()))
    }
    fn list_named_roots(&mut self) -> Result<Vec<(String, Cid)>, PageStoreError> {
        Err(PageStoreError::Storage("broken".to_string()))
    }
}

const MILLISECOND: u64 = 1_000_000;
const SECOND: u64 = 1_000_000_000;

fn create_test_store() -> CachingPageStore<MemStore, MemStore> {
    CachingPageStore::new(MemStore::new(), MemStore::new(), CacheConfig::default())
}

#[test]
fn test_cache_hit() {
    let mut store = create_test_store();

    // Put via remote, then get via caching store
    let page = Page { data: b"hello world".to_vec() };
    let cid = store.remote.put(&page).unwrap();

    // First call should fetch from remote and cache locally
    let retrieved1 = store.get(&cid).unwrap();
    assert_eq!(retrieved1.data, page.data);
    assert_eq!(store.stats.cache_misses, 1);

    // Second call should be a cache hit
    let retrieved2 = store.get(&cid).unwrap();
    assert_eq!(retrieved2.data, page.data);
    assert_eq!(store.stats.cache_hits, 1);

    // The remote was asked once.
    assert_eq!(store.remote.gets, 1);
}

#[test]
fn test_cache_miss_fallback() {
    let mut store = create_test_store();

    // Page only in remote
    let page = Page { data: b"remote only".to_vec() };
    let cid = store.remote.put(&page).unwrap();

    // Should fetch from remote and cache locally
    let retrieved = store.get(&cid).unwrap();
    assert_eq!(retrieved.data, page.data);

    // Should now be cached locally
    assert!(store.is_cached(&cid));
}

#[test]
fn test_root_ttl_expired() {
    let mut store = create_test_store();

    // Set very short TTL
    store.config.root_ttl = Some(MILLISECOND);

    let cid = Cid::from_bytes(b"test root");
    store.remote.update_root(cid).unwrap();

    // First call should fetch from remote
    let root1 = store.current_root_at(0).unwrap();
    assert_eq!(root1, Some(cid));

    // Ten milliseconds later the TTL has expired: should refresh from remote again
    let root2 = store.current_root_at(10 * MILLISECOND).unwrap();
    assert_eq!(root2, Some(cid));
}

#[test]
fn ttl_expiry_shows_the_new_remote_root() {
    let mut store = create_test_store();
    store.config.root_ttl = Some(MILLISECOND);

    let a = Cid::from_bytes(b"A");
    let b = Cid::from_bytes(b"B");
    store.remote.update_root(a).unwrap();
    assert_eq!(store.current_root_at(0).unwrap(), Some(a));
    store.remote.update_root(b).unwrap();
    // Within the time to live the cached root stands.
    assert_eq!(store.current_root_at(MILLISECOND - 1).unwrap(), Some(a));
    // At the time to live it does not.
    assert_eq!(store.current_root_at(MILLISECOND).unwrap(), Some(b));
    assert_eq!(store.local.root, Some(b));
}

#[test]
fn test_root_ttl_not_expired() {
    let mut store = create_test_store();

    // Set long TTL
    store.config.root_ttl = Some(60 * SECOND);

    let cid = Cid::from_bytes(b"test root");
    store.remote.update_root(cid).unwrap();

    // First call
    let root1 = store.current_root().unwrap();
    assert_eq!(root1, Some(cid));

    // Change remote root
    let new_cid = Cid::from_bytes(b"new test root");
    store.remote.update_root(new_cid).unwrap();

    // Should still return cached root (TTL not expired)
    let root2 = store.current_root().unwrap();
    assert_eq!(root2, Some(cid)); // Still old root
}

#[test]
fn test_force_refresh() {
    let mut store = create_test_store();

    let cid = Cid::from_bytes(b"test root");
    store.remote.update_root(cid).unwrap();

    // Cache the root
    let _ = store.current_root().unwrap();

    // Change remote root
    let new_cid = Cid::from_bytes(b"new test root");
    store.remote.update_root(new_cid).unwrap();

    // Force refresh should get new root
    let refreshed = store.refresh_root().unwrap();
    assert_eq!(refreshed, Some(new_cid));
}

#[test]
fn test_prefetch() {
    let mut store = create_test_store();

    // Create a page table with some pages
    let page_cids = store.remote.populate_with_pages(3);

    let mut page_table = PageTable::new();
    for (i, &cid) in page_cids.iter().enumerate() {
        page_table.set(i, cid);
    }

    // Store page table as root
    let pt_page = Page { data: page_table.to_bytes() };
    let pt_cid = store.remote.put(&pt_page).unwrap();
    store.remote.update_root(pt_cid).unwrap();

    // Prefetch should load all pages into local cache
    let fetched = store.prefetch().unwrap();
    assert_eq!(fetched, 3); // Should fetch 3 data pages (page table already fetched)

    // All pages should now be cached
    for &cid in &page_cids {
        assert!(store.is_cached(&cid));
    }
}

#[test]
fn test_write_through() {
    let mut store = create_test_store();

    let page = Page { data: b"write through test".to_vec() };
    let cid = store.put(&page).unwrap();

    // Should be in both local and remote
    assert!(store.local.get(&cid).is_ok());
    assert!(store.remote.get(&cid).is_ok());
}

#[test]
fn test_update_root_write_through() {
    let mut store = create_test_store();

    let cid = Cid::from_bytes(b"test root");
    store.update_root(cid).unwrap();

    // Should be in both local and remote
    assert_eq!(store.local.current_root().unwrap(), Some(cid));
    assert_eq!(store.remote.current_root().unwrap(), Some(cid));
}

#[test]
fn test_cache_stats() {
    let mut store = create_test_store();

    let page = Page { data: b"stats test".to_vec() };
    let cid = store.remote.put(&page).unwrap();

    // Initial stats
    assert_eq!(store.stats.cache_hits, 0);
    assert_eq!(store.stats.cache_misses, 0);
    assert_eq!(store.stats().cached_pages, 0);

    // Miss
    let _ = store.get(&cid).unwrap();
    assert_eq!(store.stats.cache_misses, 1);
    assert_eq!(store.stats.cache_hits, 0);

    // Hit
    let _ = store.get(&cid).unwrap();
    assert_eq!(store.stats.cache_hits, 1);
    assert_eq!(store.stats().cache_misses, 1);
}

#[test]
fn test_persistent_cache() {
    let page = Page { data: b"persistent test".to_vec() };

    // Create first store and put a page
    let mut store = CachingPageStore::new(MemStore::new(), MemStore::new(), CacheConfig::default());
    let cid = store.put(&page).unwrap();

    // Create new store over the same local store
    let mut store = CachingPageStore::new(store.local, MemStore::new(), CacheConfig::default());

    // Page should still be there from the local store
    assert!(store.is_cached(&cid));
    let retrieved = store.local.get(&cid).unwrap(); // Direct local access
    assert_eq!(retrieved.data, page.data);
}

#[test]
fn lib_test_named_roots() {
    let mut store = create_test_store();

    let cid1 = Cid::from_bytes(b"snapshot 1");
    let cid2 = Cid::from_bytes(b"snapshot 2");

    // Set named roots
    store.set_named_root("snap1", cid1).unwrap();
    store.set_named_root("snap2", cid2).unwrap();

    // Should be in both local and remote
    assert_eq!(store.get_named_root("snap1").unwrap(), Some(cid1));
    assert_eq!(store.remote.get_named_root("snap1").unwrap(), Some(cid1));
    assert_eq!(store.local.get_named_root("snap1").unwrap(), Some(cid1));

    // List should return both
    let roots = store.list_named_roots().unwrap();
    assert_eq!(roots.len(), 2);
    assert!(roots.contains(&("snap1".to_string(), cid1)));
    assert!(roots.contains(&("snap2".to_string(), cid2)));

    // Remove one
    assert!(store.remove_named_root("snap1").unwrap());
    assert_eq!(store.list_named_roots().unwrap().len(), 1);
}

#[test]
fn test_max_prefetch_pages() {
    let mut store = create_test_store();

    // Limit prefetch to 2 pages
    store.config.max_prefetch_pages = 2;

    // Create more pages than the limit
    let page_cids = store.remote.populate_with_pages(5);

    let mut page_table = PageTable::new();
    for (i, &cid) in page_cids.iter().enumerate() {
        page_table.set(i, cid);
    }

    let pt_page = Page { data: page_table.to_bytes() };
    let pt_cid = store.remote.put(&pt_page).unwrap();
    store.remote.update_root(pt_cid).unwrap();

    // Should only fetch max_prefetch_pages
    let fetched = store.prefetch().unwrap();
    assert_eq!(fetched, 2);
}

#[test]
fn default_config() {
    let config = CacheConfig::default();
    assert_eq!(config.root_ttl, Some(300 * SECOND));
    assert!(!config.prefetch_on_open);
    assert_eq!(config.max_prefetch_pages, 0);
}

#[test]
fn root_set_stays_the_answer_without_the_remote() {
    let mut store = create_test_store();
    store.config.root_ttl = Some(5 * SECOND);
    let r = Cid::from_bytes(b"r");
    store.update_root_at(r, 100).unwrap();
    // The remote moves on; the store was told otherwise and is within the
    // time to live.
    store.remote.update_root(Cid::from_bytes(b"elsewhere")).unwrap();
    assert_eq!(store.current_root_at(100).unwrap(), Some(r));
    assert_eq!(store.current_root_at(100 + 5 * SECOND - 1).unwrap(), Some(r));
    assert_eq!(store.current_root_at(100 + 5 * SECOND).unwrap(), Some(Cid::from_bytes(b"elsewhere")));
}

#[test]
fn root_without_ttl_is_kept_until_refreshed() {
    let mut store = create_test_store();
    store.config.root_ttl = None;
    let r = Cid::from_bytes(b"r");
    store.update_root_at(r, 0).unwrap();
    store.remote.update_root(Cid::from_bytes(b"elsewhere")).unwrap();
    assert_eq!(store.current_root_at(u64::MAX).unwrap(), Some(r));
    assert_eq!(store.refresh_root().unwrap(), Some(Cid::from_bytes(b"elsewhere")));
    assert_eq!(store.current_root_at(u64::MAX).unwrap(), Some(Cid::from_bytes(b"elsewhere")));
}

#[test]
fn reset_root_is_no_root() {
    let mut store = create_test_store();
    store.update_root(Cid::from_bytes(b"r")).unwrap();
    store.update_root(Cid::null()).unwrap();
    assert_eq!(store.current_root().unwrap(), None);
}

#[test]
fn prefetch_on_open_fetches_the_remote_table() {
    let mut remote = MemStore::new();
    let cids = remote.populate_with_pages(4);
    let mut table = PageTable::new();
    for (i, &cid) in cids.iter().enumerate() {
        table.set(i, cid);
    }
    let root = remote.put(&Page { data: table.to_bytes() }).unwrap();
    remote.update_root(root).unwrap();
    let config = CacheConfig { root_ttl: None, prefetch_on_open: true, max_prefetch_pages: 0 };
    let store = CachingPageStore::new(MemStore::new(), remote, config);
    assert_eq!(store.local.pages.len(), 5);
}

#[test]
fn prefetch_without_a_root_fetches_nothing() {
    let mut store = create_test_store();
    assert_eq!(store.prefetch().unwrap(), 0);
}

#[test]
fn prefetch_cids_skips_what_is_cached_or_missing() {
    let mut store = create_test_store();
    let cached = store.put(&Page { data: b"both".to_vec() }).unwrap();
    let remote_only = store.remote.put(&Page { data: b"remote".to_vec() }).unwrap();
    let nowhere = Cid::from_bytes(b"nowhere");
    assert_eq!(store.prefetch_cids(&[cached, remote_only, nowhere]).unwrap(), 1);
    assert!(store.is_cached(&remote_only));
}

#[test]
fn a_failing_local_store_is_not_overwritten() {
    let mut remote = MemStore::new();
    let cid = remote.put(&Page { data: b"good".to_vec() }).unwrap();
    let mut store = CachingPageStore::new(Broken, remote, CacheConfig::default());
    assert!(matches!(store.get(&cid), Err(PageStoreError::Storage(_))));
    // The remote was not asked, and nothing was counted.
    assert_eq!(store.remote.gets, 0);
    assert_eq!(store.stats.cache_hits, 0);
    assert_eq!(store.stats.cache_misses, 0);
}

#[test]
fn put_fails_when_the_remote_fails() {
    let mut store = CachingPageStore::new(MemStore::new(), Broken, CacheConfig::default());
    assert!(store.put(&Page { data: b"x".to_vec() }).is_err());
}

#[test]
fn list_merges_both_sides_and_the_remote_wins() {
    let mut store = create_test_store();
    let a = Cid::from_bytes(b"a");
    let b = Cid::from_bytes(b"b");
    store.local.set_named_root("zeta", a).unwrap();
    store.local.set_named_root("both", a).unwrap();
    store.remote.set_named_root("both", b).unwrap();
    store.remote.set_named_root("alpha", b).unwrap();
    let roots = store.list_named_roots().unwrap();
    assert_eq!(
        roots,
        vec![("alpha".to_string(), b), ("both".to_string(), b), ("zeta".to_string(), a)]
    );
    // Reads prefer the local side.
    assert_eq!(store.get_named_root("both").unwrap(), Some(a));
    assert_eq!(store.get_named_root("alpha").unwrap(), Some(b));
}

#[test]
fn list_counts_a_failing_side_as_empty() {
    let mut local = MemStore::new();
    local.set_named_root("only", Cid::from_bytes(b"x")).unwrap();
    let mut store = CachingPageStore::new(local, Broken, CacheConfig::default());
    assert_eq!(store.list_named_roots().unwrap().len(), 1);
}

#[test]
fn clock_never_runs_back() {
    let store = create_test_store();
    let first = store.clock.now();
    let second = store.clock.now();
    assert!(first <= second);
}

#[test]
fn prefetch_of_nothing_asks_nobody() {
    let mut store = CachingPageStore::new(Broken, Broken, CacheConfig::default());
    assert_eq!(store.prefetch_cids(&[]).unwrap(), 0);
}

#[test]
fn prefetch_fails_when_the_local_store_takes_no_page() {
    let mut remote = MemStore::new();
    let cid = remote.put(&Page { data: b"page".to_vec() }).unwrap();
    let mut store = CachingPageStore::new(Broken, remote, CacheConfig::default());
    assert!(store.prefetch_cids(&[cid]).is_err());
    assert!(store.prefetch().is_ok());
}

#[test]
fn a_root_without_time_to_live_answers_whatever_the_clock_says() {
    let mut store = create_test_store();
    store.config.root_ttl = None;
    let r = Cid::from_bytes(b"r");
    store.update_root(r).unwrap();
    assert_eq!(store.local.root, Some(r));
    assert_eq!(store.remote.root, Some(r));
    assert!(store.root_cache.fetched_at.is_some());
    store.remote.update_root(Cid::from_bytes(b"elsewhere")).unwrap();
    assert_eq!(store.current_root().unwrap(), Some(r));
    assert_eq!(store.local.root, Some(r));
}

#[test]
fn update_root_that_fails_leaves_the_cached_root() {
    let mut store = CachingPageStore::new(MemStore::new(), Broken, CacheConfig::default());
    assert!(store.update_root(Cid::from_bytes(b"r")).is_err());
    assert_eq!(store.root_cache.root, None);
    assert_eq!(store.root_cache.fetched_at, None);
}

#[test]
fn refresh_makes_the_remote_root_the_local_one() {
    let mut store = create_test_store();
    let r = Cid::from_bytes(b"r");
    store.remote.update_root(r).unwrap();
    assert_eq!(store.refresh_root().unwrap(), Some(r));
    assert_eq!(store.local.root, Some(r));
    assert_eq!(store.root_cache.root, Some(r));
    assert!(store.root_cache.fetched_at.is_some());
}

#[test]
fn named_roots_are_written_to_both_sides_and_removed_from_both() {
    let mut store = create_test_store();
    let cid = Cid::from_bytes(b"snapshot");
    store.set_named_root("v1", cid).unwrap();
    assert_eq!(store.local.named_roots.get("v1"), Some(&cid));
    assert_eq!(store.remote.named_roots.get("v1"), Some(&cid));
    assert!(store.remove_named_root("v1").unwrap());
    assert!(store.local.named_roots.is_empty());
    assert!(store.remote.named_roots.is_empty());
    assert!(!store.remove_named_root("v1").unwrap());
    assert_eq!(store.get_named_root("v1").unwrap(), None);
}

#[test]
fn named_root_operations_fail_when_a_side_fails() {
    let mut store = CachingPageStore::new(MemStore::new(), Broken, CacheConfig::default());
    let cid = Cid::from_bytes(b"snapshot");
    assert!(store.set_named_root("v1", cid).is_err());
    assert!(store.remove_named_root("v1").is_err());
    // The local store took the root before the remote failed.
    assert_eq!(store.local.named_roots.get("v1"), None);
    let mut store = CachingPageStore::new(Broken, MemStore::new(), CacheConfig::default());
    assert!(store.set_named_root("v1", cid).is_err());
    assert!(store.remote.named_roots.is_empty());
    // A local store that fails sends the lookup on to the remote.
    store.remote.set_named_root("v1", cid).unwrap();
    assert_eq!(store.get_named_root("v1").unwrap(), Some(cid));
}

/// A store that answers every read with the same page.
struct Lying {
    gets: u64,
}

impl PageStore for Lying {
    fn get(&mut self, _cid: &Cid) -> Result<Page, PageStoreError> {
        self.gets += 1;
        Ok(Page { data: b"not what was asked for".to_vec() })
    }
    fn put(&mut self, page: &Page) -> Result<Cid, PageStoreError> {
        Ok(Cid::from_bytes(&page.data))
    }
    fn update_root(&mut self, _new_root: Cid) -> Result<(), PageStoreError> {
        Ok(())
    }
    fn current_root(&mut self) -> Result<Option<Cid>, PageStoreError> {
        Ok(None)
    }
    fn set_named_root(&mut self, _name: &str, _cid: Cid) -> Result<(), PageStoreError> {
        Ok(())
    }
    fn get_named_root(&mut self, _name: &str) -> Result<Option<Cid>, PageStoreError> {
        Ok(None)
    }
    fn remove_named_root(&mut self, _name: &str) -> Result<bool, PageStoreError> {
        Ok(false)
    }
    fn list_named_roots(&mut self) -> Result<Vec<(String, Cid)>, PageStoreError> {
        Ok(Vec::new())
    }
}

#[test]
fn a_page_of_the_remote_with_another_digest_is_neither_returned_nor_cached() {
    let mut local = MemStore::new();
    let kept = local.put(&Page { data: b"kept".to_vec() }).unwrap();
    let mut store = CachingPageStore::new(local, Lying { gets: 0 }, CacheConfig::default());
    let cid = Cid::from_bytes(b"wanted");
    match store.get(&cid) {
        Err(PageStoreError::Storage(msg)) => assert!(msg.starts_with("CID mismatch")),
        _ => panic!("expected a storage error"),
    }
    assert_eq!(store.stats.cache_misses, 1);
    assert_eq!(store.local.pages.len(), 1);
    assert_eq!(store.local.get(&kept).unwrap().data, b"kept");
    // A prefetch skips such a page.
    assert_eq!(store.prefetch_cids(&[cid]).unwrap(), 0);
    assert_eq!(store.local.pages.len(), 1);
}

#[test]
fn a_miss_copies_the_page_into_the_local_store() {
    let mut store = create_test_store();
    let page = Page { data: b"hello world".to_vec() };
    let cid = store.remote.put(&page).unwrap();
    assert_eq!(store.get(&cid).unwrap().data, b"hello world");
    assert_eq!(store.local.pages.get(&cid), Some(&b"hello world".to_vec()));
    // A local store that does not take the copy does not fail the read.
    let mut remote = MemStore::new();
    remote.put(&page).unwrap();
    let mut store = CachingPageStore::new(NotFoundOnly, remote, CacheConfig::default());
    assert_eq!(store.get(&cid).unwrap().data, b"hello world");
}

/// A store that has no page and takes none.
struct NotFoundOnly;

impl PageStore for NotFoundOnly {
    fn get(&mut self, cid: &Cid) -> Result<Page, PageStoreError> {
        Err(PageStoreError::NotFound(*cid))
    }
    fn put(&mut self, _page: &Page) -> Result<Cid, PageStoreError> {
        Err(PageStoreError::Io("full".to_string()))
    }
    fn update_root(&mut self, _new_root: Cid) -> Result<(), PageStoreError> {
        Ok(())
    }
    fn current_root(&mut self) -> Result<Option<Cid>, PageStoreError> {
        Ok(None)
    }
    fn set_named_root(&mut self, _name: &str, _cid: Cid) -> Result<(), PageStoreError> {
        Ok(())
    }
    fn get_named_root(&mut self, _name: &str) -> Result<Option<Cid>, PageStoreError> {
        Ok(None)
    }
    fn remove_named_root(&mut self, _name: &str) -> Result<bool, PageStoreError> {
        Ok(false)
    }
    fn list_named_roots(&mut self) -> Result<Vec<(String, Cid)>, PageStoreError> {
        Ok(Vec::new())
    }
}

#[test]
fn the_refreshed_root_becomes_the_local_root() {
    let mut store = create_test_store();
    store.config.root_ttl = Some(MILLISECOND);
    let a = Cid::from_bytes(b"test root");
    store.remote.update_root(a).unwrap();
    assert_eq!(store.current_root_at(0).unwrap(), Some(a));
    assert_eq!(store.local.current_root().unwrap(), Some(a));
    let b = Cid::from_bytes(b"new test root");
    store.remote.update_root(b).unwrap();
    assert_eq!(store.current_root_at(10 * MILLISECOND).unwrap(), Some(b));
    assert_eq!(store.local.current_root().unwrap(), Some(b));
    assert_eq!(store.root_cache.root, Some(b));
}

#[test]
fn prefetch_asks_for_the_unserved_entries_in_page_order() {
    let a = Cid::from_bytes(b"a");
    let b = Cid::from_bytes(b"b");
    let c = Cid::from_bytes(b"c");
    let mut table = PageTable::new();
    table.set(0, a);
    table.set(2, b);
    table.set(3, c);
    assert_eq!(unserved(&table, &vec![false, true, false, false]), vec![a, b, c]);
    assert_eq!(unserved(&table, &vec![true, false, false, true]), vec![b]);
    assert_eq!(unserved(&table, &vec![false, false]), vec![a]);
    assert_eq!(unserved(&table, &vec![]), vec![]);
}

#[test]
fn prefetch_counts_what_the_local_store_took() {
    let cid = Cid::from_bytes(b"page");
    assert_eq!(prefetch_outcome(Some(Ok(cid))).unwrap(), Prefetched::Counted);
    assert_eq!(prefetch_outcome(None).unwrap(), Prefetched::Skipped);
    assert!(matches!(
        prefetch_outcome(Some(Err(PageStoreError::Io("full".to_string())))),
        Err(PageStoreError::Io(_))
    ));
    let page = Page { data: b"page".to_vec() };
    assert_eq!(page_to_copy(&cid, Ok(page)).unwrap().data, b"page");
    assert!(page_to_copy(&cid, Ok(Page { data: b"other".to_vec() })).is_none());
    assert!(page_to_copy(&cid, Err(PageStoreError::NotFound(cid))).is_none());
}

#[test]
fn prefetch_stops_looking_at_the_bound() {
    let mut store = create_test_store();
    store.config.max_prefetch_pages = 2;
    let cids = store.remote.populate_with_pages(5);
    let mut table = PageTable::new();
    for (i, &cid) in cids.iter().enumerate() {
        table.set(i, cid);
    }
    let root = store.remote.put(&Page { data: table.to_bytes() }).unwrap();
    store.remote.update_root(root).unwrap();
    assert_eq!(store.prefetch().unwrap(), 2);
    // The first two pages in page order were copied, and the third was
    // not even looked for: the local store was asked for two pages when
    // they were selected and for the same two before they were fetched.
    assert!(store.local.pages.contains_key(&cids[0]));
    assert!(store.local.pages.contains_key(&cids[1]));
    assert!(!store.local.pages.contains_key(&cids[2]));
    assert_eq!(store.local.gets, 4);
}

#[test]
fn a_named_root_counts_as_removed_when_either_store_had_it() {
    assert!(removed_by_either(true, false));
    assert!(removed_by_either(false, true));
    assert!(removed_by_either(true, true));
    assert!(!removed_by_either(false, false));
}
