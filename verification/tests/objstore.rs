use craftsql::cid::{Cid, Page, PageStoreError};
use craftsql::objstore::{
    bundle_to_fetch, page_size_from_first, CraftObjPageStore, MockNetworkBackend,
};
use craftsql::page_table::PageTable;
use craftsql::store::{NetworkBackend, PageStore};
use std::collections::HashMap;

/// In-memory page store.
struct MemStore {
    pages: HashMap<Cid, Vec<u8>>,
    root: Option<Cid>,
    named_roots: HashMap<String, Cid>,
    gets: u64,
}

impl MemStore {
    fn new() -> Self {
        Self { pages: HashMap::new(), root: None, named_roots: HashMap::new(), gets: 0 }
    }
}

impl PageStore for MemStore {
    fn get(&mut self, cid: &Cid) -> Result<Page, PageStoreError> {
        self.gets += 1;
        self.pages.get(cid).map(|d| Page { data: d.clone() }).ok_or(PageStoreError::NotFound(*cid))
    }

    fn put(&mut self, page: &Page) -> Result<Cid, PageStoreError> {
        let cid = Cid::from_bytes(&page.data);
        self.pages.entry(cid).or_insert_with(|| page.data.clone());
        Ok(cid)
    }

    fn update_root(&mut self, new_root: Cid) -> Result<(), PageStoreError> {
        self.root = if new_root.is_null() { None } else { Some(new_root) };
        Ok(())
    }

    fn current_root(&mut self) -> Result<Option<Cid>, PageStoreError> {
        Ok(self.root)
    }

    fn set_named_root(&mut self, name: &str, cid: Cid) -> Result<(), PageStoreError> {
        self.named_roots.insert(name.to_string(), cid);
        Ok(())
    }

    fn get_named_root(&mut self, name: &str) -> Result<Option<Cid>, PageStoreError> {
        Ok(self.named_roots.get(name).copied())
    }

    fn remove_named_root(&mut self, name: &str) -> Result<bool, PageStoreError> {
        Ok(self.named_roots.remove(name).is_some())
    }

    fn list_named_roots(&mut self) -> Result<Vec<(String, Cid)>, PageStoreError> {
        let mut v: Vec<_> = self.named_roots.iter().map(|(k, v)| (k.clone(), *v)).collect();
        v.sort_by(|a, b| a.0.cmp(&b.0));
        Ok(v)
    }
}

fn make_store() -> CraftObjPageStore<MemStore, MockNetworkBackend> {
    CraftObjPageStore::new(MemStore::new(), MockNetworkBackend::new())
}

#[test]
fn test_read_write_roundtrip() {
    let mut store = make_store();

    let page = Page { data: b"hello craftsql".to_vec() };
    let cid = store.put(&page).unwrap();
    let got = store.get(&cid).unwrap();
    assert_eq!(got.data, page.data);
}

#[test]
fn test_cache_hit_no_network_call() {
    let mut store = make_store();

    let page = Page { data: b"cache me".to_vec() };
    let cid = store.put(&page).unwrap();

    // First read — should be cache hit (put already cached)
    let _ = store.get(&cid).unwrap();
    assert_eq!(store.stats.hits, 1);
    assert_eq!(store.stats.misses, 0);

    // Second read — still cache hit
    let _ = store.get(&cid).unwrap();
    assert_eq!(store.stats.hits, 2);

    // Network fetch should not have been called
    assert_eq!(store.network.fetch_count, 0);
}

#[test]
fn test_cache_miss_fetches_bundle_from_network() {
    let mut store = make_store();

    // Put a page locally, update root to create a bundle on network
    let page = Page { data: vec![0xAB; 4096] };
    let cid = store.put(&page).unwrap();
    // Manually create page table and trigger bundling via update_root
    let mut pt = PageTable::new();
    pt.set(0, cid);
    let pt_data = pt.to_bytes();
    let pt_cid = Cid::from_bytes(&pt_data);
    let pt_page = Page { data: pt_data };
    store.put(&pt_page).unwrap();
    store.update_root(pt_cid).unwrap();

    // Now create a new store pointing at the same network but empty cache
    let mut store2 = CraftObjPageStore::new(MemStore::new(), store.network);

    // First read — cache miss, should fetch bundle and unpack
    let got = store2.get(&cid).unwrap();
    assert_eq!(got.data, page.data);
    assert_eq!(store2.stats.misses, 1);

    // Second read — cache hit
    let _ = store2.get(&cid).unwrap();
    assert_eq!(store2.stats.hits, 1);
}

#[test]
fn test_root_get_set() {
    let mut store = make_store();

    assert_eq!(store.current_root().unwrap(), None);

    // Create a valid page table and pages so update_root can bundle
    let page = Page { data: vec![0u8; 4096] };
    let page_cid = store.put(&page).unwrap();
    let mut pt = PageTable::new();
    pt.set(0, page_cid);
    let pt_data = pt.to_bytes();
    let pt_cid = Cid::from_bytes(&pt_data);
    store.put(&Page { data: pt_data }).unwrap();

    store.update_root(pt_cid).unwrap();

    // Root should now be the bundle CID (not the page table CID)
    let root = store.current_root().unwrap();
    assert!(root.is_some());
}

#[test]
fn test_named_roots() {
    let mut store = make_store();

    let cid1 = Cid::from_bytes(b"snap1");
    let cid2 = Cid::from_bytes(b"snap2");

    store.set_named_root("v1", cid1).unwrap();
    store.set_named_root("v2", cid2).unwrap();

    assert_eq!(store.get_named_root("v1").unwrap(), Some(cid1));
    assert_eq!(store.get_named_root("v2").unwrap(), Some(cid2));

    let roots = store.list_named_roots().unwrap();
    assert_eq!(roots.len(), 2);

    assert!(store.remove_named_root("v1").unwrap());
    assert_eq!(store.get_named_root("v1").unwrap(), None);
}

#[test]
fn test_concurrent_reads() {
    let mut store = make_store();

    // Put a page (locally cached)
    let page = Page { data: b"concurrent data".to_vec() };
    let cid = store.put(&page).unwrap();

    // Eight readers, one after the other: a store takes one reader at a time
    for _ in 0..8 {
        let got = store.get(&cid).unwrap();
        assert_eq!(got.data, b"concurrent data");
    }

    // All should be cache hits (page was cached by put)
    assert_eq!(store.stats.hits, 8);
}

#[test]
fn test_put_does_not_publish_to_network() {
    let mut store = make_store();

    let page = Page { data: b"publish me".to_vec() };
    let _cid = store.put(&page).unwrap();

    // put() only caches locally — no network publish
    assert_eq!(store.network.publish_count, 0);
}

#[test]
fn test_update_root_bundles_and_publishes() {
    let mut store = make_store();

    // Create some pages
    let page1 = Page { data: vec![1u8; 4096] };
    let page2 = Page { data: vec![2u8; 4096] };
    let cid1 = store.put(&page1).unwrap();
    let cid2 = store.put(&page2).unwrap();

    // Build page table and store it
    let mut pt = PageTable::new();
    pt.set(0, cid1);
    pt.set(1, cid2);
    let pt_data = pt.to_bytes();
    let pt_cid = Cid::from_bytes(&pt_data);
    let pt_page = Page { data: pt_data };
    store.put(&pt_page).unwrap();

    // update_root should bundle and publish
    store.update_root(pt_cid).unwrap();

    // Exactly one network publish (the bundle)
    assert_eq!(store.network.publish_count, 1);

    // Root should be set on network
    assert!(store.network.root.is_some());
}

#[test]
fn test_not_found() {
    let mut store = make_store();

    let cid = Cid::from_bytes(b"nonexistent");
    assert!(matches!(store.get(&cid), Err(PageStoreError::NotFound(_))));
}

#[test]
fn bundle_size_is_header_table_trailer_and_pages() {
    let mut store = make_store();
    let mut pt = PageTable::new();
    for i in 0..3u8 {
        let cid = store.put(&Page { data: vec![i; 4096] }).unwrap();
        pt.set(i as usize, cid);
    }
    let pt_data = pt.to_bytes();
    let pt_len = pt_data.len();
    let pt_cid = store.put(&Page { data: pt_data }).unwrap();
    store.update_root(pt_cid).unwrap();

    let bundle_cid = store.network.root.unwrap();
    let bundle = store.network.fetch_page(&bundle_cid).unwrap();
    assert_eq!(bundle.len(), 14 + pt_len + 4 + 3 * 4096);
    assert_eq!(&bundle[0..4], b"CSQL");
    assert_eq!(&bundle[4..6], &[1, 0]);
    assert_eq!(&bundle[6..10], &4096u32.to_le_bytes());
    assert_eq!(&bundle[10..14], &3u32.to_le_bytes());
    assert_eq!(&bundle[14 + pt_len..18 + pt_len], &(pt_len as u32).to_le_bytes());

    // A fresh store with only the network populated reads every page after
    // one bundle fetch and no further network call.
    let mut fresh = CraftObjPageStore::new(MemStore::new(), store.network);
    let before = fresh.network.fetch_count;
    for i in 0..3u8 {
        let cid = Cid::from_bytes(&vec![i; 4096]);
        assert_eq!(fresh.get(&cid).unwrap().data, vec![i; 4096]);
    }
    assert_eq!(fresh.network.fetch_count, before + 1);
}

#[test]
fn bundle_unbundle_bundle_is_a_fixed_point() {
    let mut store = make_store();
    let mut pt = PageTable::new();
    let first = store.put(&Page { data: vec![7u8; 512] }).unwrap();
    let third = store.put(&Page { data: vec![9u8; 512] }).unwrap();
    pt.set(0, first);
    pt.set(2, third);
    let bundle = store.bundle_pages(&pt, 512).unwrap();

    let mut other = make_store();
    let table = other.unbundle_pages(&bundle).unwrap();
    assert_eq!(table.entries, pt.entries);
    let again = other.bundle_pages(&table, 512).unwrap();
    assert_eq!(again, bundle);
}

#[test]
fn bundle_pads_short_pages_and_zero_fills_absent_slots() {
    let mut store = make_store();
    let mut pt = PageTable::new();
    let cid = store.put(&Page { data: vec![5u8; 3] }).unwrap();
    pt.set(1, cid);
    let pt_len = pt.to_bytes().len();
    let bundle = store.bundle_pages(&pt, 8).unwrap();
    assert_eq!(bundle.len(), 14 + pt_len + 4 + 2 * 8);
    let pages = &bundle[18 + pt_len..];
    assert_eq!(pages, &[0, 0, 0, 0, 0, 0, 0, 0, 5, 5, 5, 0, 0, 0, 0, 0]);
}

#[test]
fn bundle_fails_without_the_page() {
    let mut store = make_store();
    let mut pt = PageTable::new();
    pt.set(0, Cid::from_bytes(b"never stored"));
    assert!(matches!(store.bundle_pages(&pt, 4096), Err(PageStoreError::Storage(_))));
}

#[test]
fn unbundle_rejects_what_is_no_bundle() {
    let mut store = make_store();
    let text = |r: Result<PageTable, PageStoreError>| match r {
        Err(PageStoreError::Storage(msg)) => msg,
        other => panic!("expected a storage error, got {:?}", other.map(|t| t.entries)),
    };
    assert_eq!(text(store.unbundle_pages(&[0u8; 17])), "bundle too small");
    assert_eq!(text(store.unbundle_pages(&[0u8; 18])), "invalid bundle magic");
    let mut blob = b"CSQL".to_vec();
    blob.extend_from_slice(&[2, 0]);
    blob.extend_from_slice(&[0u8; 12]);
    assert_eq!(text(store.unbundle_pages(&blob)), "unsupported bundle version 2");
    // One page of 16 bytes announced, none there.
    let mut blob = b"CSQL".to_vec();
    blob.extend_from_slice(&[1, 0]);
    blob.extend_from_slice(&16u32.to_le_bytes());
    blob.extend_from_slice(&1u32.to_le_bytes());
    blob.extend_from_slice(&[0u8; 8]);
    assert_eq!(text(store.unbundle_pages(&blob)), "bundle data too short");
    // No pages, and a table length that reaches past the trailer.
    let mut blob = b"CSQL".to_vec();
    blob.extend_from_slice(&[1, 0]);
    blob.extend_from_slice(&4096u32.to_le_bytes());
    blob.extend_from_slice(&0u32.to_le_bytes());
    blob.extend_from_slice(&9u32.to_le_bytes());
    assert_eq!(text(store.unbundle_pages(&blob)), "invalid page table length");
    // A table that ends early.
    let mut blob = b"CSQL".to_vec();
    blob.extend_from_slice(&[1, 0]);
    blob.extend_from_slice(&4096u32.to_le_bytes());
    blob.extend_from_slice(&0u32.to_le_bytes());
    blob.extend_from_slice(&[1, 0, 0, 0]);
    blob.extend_from_slice(&4u32.to_le_bytes());
    assert!(text(store.unbundle_pages(&blob)).starts_with("parse page table: "));
    assert_eq!(store.local.pages.len(), 0);
}

#[test]
fn get_rejects_a_blob_with_another_digest() {
    /// A network that hands out the same bytes whatever is asked for.
    struct Liar;
    impl NetworkBackend for Liar {
        fn publish_page(&mut self, data: &[u8]) -> Result<Cid, PageStoreError> {
            Ok(Cid::from_bytes(data))
        }
        fn fetch_page(&mut self, _cid: &Cid) -> Result<Vec<u8>, PageStoreError> {
            Ok(b"not what you asked for".to_vec())
        }
        fn get_root(&mut self) -> Result<Option<Cid>, PageStoreError> {
            Ok(None)
        }
        fn set_root(&mut self, _cid: Cid) -> Result<(), PageStoreError> {
            Ok(())
        }
        fn get_named_root(&mut self, _name: &str) -> Result<Option<Cid>, PageStoreError> {
            Ok(None)
        }
        fn set_named_root(&mut self, _name: &str, _cid: Cid) -> Result<(), PageStoreError> {
            Ok(())
        }
        fn remove_named_root(&mut self, _name: &str) -> Result<bool, PageStoreError> {
            Ok(false)
        }
        fn list_named_roots(&mut self) -> Result<Vec<(String, Cid)>, PageStoreError> {
            Ok(Vec::new())
        }
    }
    let mut store = CraftObjPageStore::new(MemStore::new(), Liar);
    let cid = Cid::from_bytes(b"wanted");
    match store.get(&cid) {
        Err(PageStoreError::Storage(msg)) => assert!(msg.starts_with("CID mismatch")),
        _ => panic!("expected a storage error"),
    }
    // Nothing was cached.
    assert_eq!(store.local.pages.len(), 0);
    assert!(!store.is_cached(&cid));
}

#[test]
fn mock_network_counts_and_orders() {
    let mut net = MockNetworkBackend::new();
    let a = net.publish_page(b"a").unwrap();
    let again = net.publish_page(b"a").unwrap();
    assert_eq!(a, again);
    assert_eq!(a, Cid::from_bytes(b"a"));
    assert_eq!(net.pages.len(), 1);
    assert_eq!(net.publish_count, 2);
    assert_eq!(net.fetch_page(&a).unwrap(), b"a");
    assert!(matches!(net.fetch_page(&Cid::from_bytes(b"b")), Err(PageStoreError::NotFound(c)) if c == Cid::from_bytes(b"b")));
    assert_eq!(net.fetch_count, 2);

    assert_eq!(net.get_root().unwrap(), None);
    net.set_root(a).unwrap();
    assert_eq!(net.get_root().unwrap(), Some(a));

    net.set_named_root("b", a).unwrap();
    net.set_named_root("a", a).unwrap();
    net.set_named_root("c", a).unwrap();
    net.set_named_root("b", again).unwrap();
    let names: Vec<String> = net.list_named_roots().unwrap().into_iter().map(|r| r.0).collect();
    assert_eq!(names, vec!["a", "b", "c"]);
    assert!(net.remove_named_root("b").unwrap());
    assert!(!net.remove_named_root("b").unwrap());
    assert_eq!(net.get_named_root("b").unwrap(), None);
    assert_eq!(net.get_named_root("c").unwrap(), Some(a));
}

/// A store that fails every call.
struct Down;

impl PageStore for Down {
    fn get(&mut self, _cid: &Cid) -> Result<Page, PageStoreError> {
        Err(PageStoreError::Io("down".to_string()))
    }
    fn put(&mut self, _page: &Page) -> Result<Cid, PageStoreError> {
        Err(PageStoreError::Io("down".to_string()))
    }
    fn update_root(&mut self, _new_root: Cid) -> Result<(), PageStoreError> {
        Err(PageStoreError::Io("down".to_string()))
    }
    fn current_root(&mut self) -> Result<Option<Cid>, PageStoreError> {
        Err(PageStoreError::Io("down".to_string()))
    }
    fn set_named_root(&mut self, _name: &str, _cid: Cid) -> Result<(), PageStoreError> {
        Err(PageStoreError::Io("down".to_string()))
    }
    fn get_named_root(&mut self, _name: &str) -> Result<Option<Cid>, PageStoreError> {
        Err(PageStoreError::Io("down".to_string()))
    }
    fn remove_named_root(&mut self, _name: &str) -> Result<bool, PageStoreError> {
        Err(PageStoreError::Io("down".to_string()))
    }
    fn list_named_roots(&mut self) -> Result<Vec<(String, Cid)>, PageStoreError> {
        Err(PageStoreError::Io("down".to_string()))
    }
}

#[test]
fn named_roots_go_to_the_cache_and_the_network() {
    let mut store = make_store();
    let cid = Cid::from_bytes(b"snap");
    store.set_named_root("v1", cid).unwrap();
    assert_eq!(store.local.named_roots.get("v1"), Some(&cid));
    assert_eq!(store.network.named_roots, vec![("v1".to_string(), cid)]);
    assert!(store.remove_named_root("v1").unwrap());
    assert!(store.local.named_roots.is_empty());
    assert!(store.network.named_roots.is_empty());
    assert!(!store.remove_named_root("v1").unwrap());
}

#[test]
fn a_named_root_of_the_network_is_copied_to_the_cache() {
    let mut store = make_store();
    let cid = Cid::from_bytes(b"snap");
    store.network.set_named_root("v1", cid).unwrap();
    assert_eq!(store.get_named_root("v1").unwrap(), Some(cid));
    assert_eq!(store.local.named_roots.get("v1"), Some(&cid));
    // The cache answers for a name that the network does not have.
    let other = Cid::from_bytes(b"other");
    store.local.set_named_root("v2", other).unwrap();
    assert_eq!(store.get_named_root("v2").unwrap(), Some(other));
    // The network's list stands where it gives one.
    assert_eq!(store.list_named_roots().unwrap(), vec![("v1".to_string(), cid)]);
}

#[test]
fn a_failing_cache_does_not_fail_removal_or_listing() {
    let mut store = CraftObjPageStore::new(Down, MockNetworkBackend::new());
    let cid = Cid::from_bytes(b"snap");
    store.network.set_named_root("v1", cid).unwrap();
    assert_eq!(store.list_named_roots().unwrap(), vec![("v1".to_string(), cid)]);
    assert!(store.remove_named_root("v1").unwrap());
    assert!(!store.remove_named_root("v1").unwrap());
    assert!(store.set_named_root("v1", cid).is_err());
    assert!(store.network.named_roots.is_empty());
    assert!(store.put(&Page { data: b"x".to_vec() }).is_err());
    assert!(store.current_root().is_err());
    assert!(store.update_root(cid).is_err());
    assert!(!store.is_cached(&cid));
}

#[test]
fn the_root_is_the_networks_or_else_the_caches() {
    let mut store = make_store();
    assert_eq!(store.current_root().unwrap(), None);
    let cached = Cid::from_bytes(b"cached");
    store.local.update_root(cached).unwrap();
    assert_eq!(store.current_root().unwrap(), Some(cached));
    let published = Cid::from_bytes(b"published");
    store.network.set_root(published).unwrap();
    assert_eq!(store.current_root().unwrap(), Some(published));
    // The network's root was copied to the cache.
    assert_eq!(store.local.root, Some(published));
    // A null root on the network counts as none.
    store.network.set_root(Cid::null()).unwrap();
    assert_eq!(store.current_root().unwrap(), Some(published));
}

#[test]
fn the_page_size_of_a_bundle_is_that_of_the_first_page() {
    assert_eq!(page_size_from_first(&Some(Ok(Page { data: vec![0u8; 1024] }))), 1024);
    assert_eq!(page_size_from_first(&Some(Ok(Page { data: vec![] }))), 0);
    assert_eq!(page_size_from_first(&Some(Err(PageStoreError::Io("down".to_string())))), 4096);
    assert_eq!(page_size_from_first(&None), 4096);

    let mut store = make_store();
    let mut pt = PageTable::new();
    for i in 0..2u8 {
        let cid = store.put(&Page { data: vec![i; 1024] }).unwrap();
        pt.set(i as usize, cid);
    }
    let pt_len = pt.to_bytes().len();
    let pt_cid = store.put(&Page { data: pt.to_bytes() }).unwrap();
    store.update_root(pt_cid).unwrap();
    let bundle_cid = store.network.root.unwrap();
    let bundle = store.network.fetch_page(&bundle_cid).unwrap();
    assert_eq!(&bundle[6..10], &1024u32.to_le_bytes());
    assert_eq!(bundle.len(), 14 + pt_len + 4 + 2 * 1024);
}

#[test]
fn a_commit_publishes_one_blob_and_makes_it_the_root() {
    let mut store = make_store();
    let mut pt = PageTable::new();
    let cid1 = store.put(&Page { data: vec![1u8; 4096] }).unwrap();
    let cid2 = store.put(&Page { data: vec![2u8; 4096] }).unwrap();
    pt.set(0, cid1);
    pt.set(1, cid2);
    let pt_len = pt.to_bytes().len();
    let pt_cid = store.put(&Page { data: pt.to_bytes() }).unwrap();
    store.update_root(pt_cid).unwrap();

    assert_eq!(store.network.publish_count, 1);
    assert_eq!(store.network.pages.len(), 1);
    let (bundle_cid, bundle) = store.network.pages[0].clone();
    assert_eq!(bundle.len(), 2 * 4096 + pt_len + 18);
    assert_eq!(bundle_cid, Cid::from_bytes(&bundle));
    assert_ne!(bundle_cid, pt_cid);
    assert_eq!(store.network.root, Some(bundle_cid));
    assert_eq!(store.local.root, Some(bundle_cid));
    assert_eq!(store.current_root().unwrap(), Some(bundle_cid));
}

#[test]
fn a_miss_fetches_the_bundle_of_the_root_unless_the_cache_has_it() {
    let root = Cid::from_bytes(b"root");
    assert_eq!(bundle_to_fetch(root, false), Some(root));
    assert_eq!(bundle_to_fetch(root, true), None);
}
