use craftsql::cid::{Cid, Page, PageStoreError};
use craftsql::page_table::PageTable;
use craftsql::store::PageStore;
use craftsql::vfs::{
    handle_for, is_page_size, root_exists, root_reset, table_of_root, table_without_root,
    CraftDbHandle, CraftVfs, LockKind, OpenAccess, OpenKind, PageBuffer, VfsErrorKind,
};
use std::collections::HashMap;

/// In-memory page store.
struct MemStore {
    pages: HashMap<Cid, Vec<u8>>,
    root: Option<Cid>,
    named_roots: HashMap<String, Cid>,
    gets: u64,
}

impl MemStore {
    fn new() -> Self {
        Self { pages: HashMap::new(), root: None, named_roots: HashMap::new(), gets: 0 }
    }
}

impl PageStore for MemStore {
    fn get(&mut self, cid: &Cid) -> Result<Page, PageStoreError> {
        self.gets += 1;
        self.pages.get(cid).map(|d| Page { data: d.clone() }).ok_or(PageStoreError::NotFound(*cid))
    }

    fn put(&mut self, page: &Page) -> Result<Cid, PageStoreError> {
        let cid = Cid::from_bytes(&page.data);
        self.pages.entry(cid).or_insert_with(|| page.data.clone());
        Ok(cid)
    }

    fn update_root(&mut self, new_root: Cid) -> Result<(), PageStoreError> {
        self.root = if new_root.is_null() { None } else { Some(new_root) };
        Ok(())
    }

    fn current_root(&mut self) -> Result<Option<Cid>, PageStoreError> {
        Ok(self.root)
    }

    fn set_named_root(&mut self, name: &str, cid: Cid) -> Result<(), PageStoreError> {
        self.named_roots.insert(name.to_string(), cid);
        Ok(())
    }

    fn get_named_root(&mut self, name: &str) -> Result<Option<Cid>, PageStoreError> {
        Ok(self.named_roots.get(name).copied())
    }

    fn remove_named_root(&mut self, name: &str) -> Result<bool, PageStoreError> {
        Ok(self.named_roots.remove(name).is_some())
    }

    fn list_named_roots(&mut self) -> Result<Vec<(String, Cid)>, PageStoreError> {
        let mut v: Vec<_> = self.named_roots.iter().map(|(k, v)| (k.clone(), *v)).collect();
        v.sort_by(|a, b| a.0.cmp(&b.0));
        Ok(v)
    }
}

/// A store that has a root and fails every read.
struct Unreadable;

impl PageStore for Unreadable {
    fn get(&mut self, _cid: &Cid) -> Result<Page, PageStoreError> {
        Err(PageStoreError::Storage("disk on fire".to_string()))
    }
    fn put(&mut self, _page: &Page) -> Result<Cid, PageStoreError> {
        Err(PageStoreError::Storage("disk on fire".to_string()))
    }
    fn update_root(&mut self, _new_root: Cid) -> Result<(), PageStoreError> {
        Err(PageStoreError::Storage("disk on fire".to_string()))
    }
    fn current_root(&mut self) -> Result<Option<Cid>, PageStoreError> {
        Ok(Some(Cid::from_bytes(b"root")))
    }
    fn set_named_root(&mut self, _name: &str, _cid: Cid) -> Result<(), PageStoreError> {
        Ok(())
    }
    fn get_named_root(&mut self, _name: &str) -> Result<Option<Cid>, PageStoreError> {
        Ok(None)
    }
    fn remove_named_root(&mut self, _name: &str) -> Result<bool, PageStoreError> {
        Ok(false)
    }
    fn list_named_roots(&mut self) -> Result<Vec<(String, Cid)>, PageStoreError> {
        Ok(Vec::new())
    }
}

/// The first page of a database whose header announces `page_size`.
fn header_page(page_size: usize, fill: u8) -> Vec<u8> {
    let mut page = vec![fill; page_size];
    page[16] = (page_size >> 8) as u8;
    page[17] = (page_size & 0xff) as u8;
    page
}

fn open_rw(vfs: &mut CraftVfs<MemStore>) -> CraftDbHandle {
    vfs.open(OpenKind::MainDb, OpenAccess::Create).unwrap()
}

fn read(handle: &CraftDbHandle, store: &mut MemStore, offset: u64, len: usize) -> Vec<u8> {
    let mut out = vec![0xEEu8; len];
    handle.read_exact_at(store, &mut out, offset).unwrap();
    out
}

#[test]
fn new_buffer_covers_the_table() {
    let mut table = PageTable::new();
    table.set(2, Cid::from_bytes(b"x"));
    let buf = PageBuffer::new(table, 1024);
    assert_eq!(buf.pages.len(), 3);
    assert!(buf.pages.iter().all(|p| p.is_none()));
    assert_eq!(buf.page_size, 1024);
    assert_eq!(buf.file_size, 3 * 1024);
    assert!(!buf.dirty);
}

#[test]
fn ensure_page_grows_with_empty_slots() {
    let mut buf = PageBuffer::new(PageTable::new(), 4096);
    buf.ensure_page(3);
    assert_eq!(buf.pages.len(), 4);
    buf.pages[1] = Some(vec![1]);
    buf.ensure_page(2);
    assert_eq!(buf.pages.len(), 4);
    assert_eq!(buf.pages[1], Some(vec![1]));
}

#[test]
fn page_sizes_are_the_powers_of_two_from_512_to_65536() {
    let sizes: Vec<usize> = (0..=70000).filter(|n| is_page_size(*n)).collect();
    assert_eq!(sizes, vec![512, 1024, 2048, 4096, 8192, 16384, 32768, 65536]);
}

#[test]
fn first_write_sets_the_page_size_from_the_header() {
    let mut vfs = CraftVfs::new(MemStore::new());
    let mut handle = open_rw(&mut vfs);
    assert_eq!(handle.buffer.page_size, 4096);
    handle.write_all_at(&mut vfs.store, &header_page(1024, 7), 0).unwrap();
    assert_eq!(handle.buffer.page_size, 1024);
    assert_eq!(handle.buffer.pages.len(), 1);
    assert_eq!(handle.size(), 1024);
    assert!(handle.buffer.dirty);
}

#[test]
fn header_is_ignored_unless_first_write_of_a_new_database() {
    // Fewer than 100 bytes.
    let mut vfs = CraftVfs::new(MemStore::new());
    let mut handle = open_rw(&mut vfs);
    handle.write_all_at(&mut vfs.store, &header_page(1024, 0)[..99], 0).unwrap();
    assert_eq!(handle.buffer.page_size, 4096);
    // Not at offset 0.
    let mut handle = open_rw(&mut vfs);
    handle.write_all_at(&mut vfs.store, &header_page(1024, 0), 1).unwrap();
    assert_eq!(handle.buffer.page_size, 4096);
    // No page size: 1000 is no power of two, 256 is too small.
    let mut handle = open_rw(&mut vfs);
    let mut page = vec![0u8; 100];
    page[16] = 0x03;
    page[17] = 0xe8;
    handle.write_all_at(&mut vfs.store, &page, 0).unwrap();
    assert_eq!(handle.buffer.page_size, 4096);
    let mut handle = open_rw(&mut vfs);
    page[16] = 0x01;
    page[17] = 0x00;
    handle.write_all_at(&mut vfs.store, &page, 0).unwrap();
    assert_eq!(handle.buffer.page_size, 4096);
    // A table that is not empty.
    let mut handle = open_rw(&mut vfs);
    let stored = vfs.store.put(&Page { data: vec![0u8; 4096] }).unwrap();
    handle.buffer.page_table.set(0, stored);
    handle.write_all_at(&mut vfs.store, &header_page(512, 0), 0).unwrap();
    assert_eq!(handle.buffer.page_size, 4096);
}

#[test]
fn write_then_read_across_pages() {
    let mut vfs = CraftVfs::new(MemStore::new());
    let mut handle = open_rw(&mut vfs);
    handle.write_all_at(&mut vfs.store, &header_page(512, 1), 0).unwrap();
    // 700 bytes from offset 400: the end of page 0, page 1 whole, the start of page 2.
    let data: Vec<u8> = (0..700u32).map(|i| (i % 251) as u8).collect();
    handle.write_all_at(&mut vfs.store, &data, 400).unwrap();
    assert_eq!(handle.buffer.pages.len(), 3);
    assert_eq!(handle.size(), 1100);
    for page in &handle.buffer.pages {
        assert_eq!(page.as_ref().unwrap().len(), 512);
    }
    assert_eq!(read(&handle, &mut vfs.store, 400, 700), data);
    // What was there before the write is still there.
    let head = read(&handle, &mut vfs.store, 0, 400);
    assert_eq!(head, header_page(512, 1)[..400].to_vec());
    // Past the written bytes the page holds zeros.
    assert_eq!(read(&handle, &mut vfs.store, 1100, 436), vec![0u8; 436]);
    // Pages that were never written read as zeros.
    assert_eq!(read(&handle, &mut vfs.store, 5120, 100), vec![0u8; 100]);
}

#[test]
fn empty_write_extends_the_file_and_leaves_the_buffer_clean() {
    let mut vfs = CraftVfs::new(MemStore::new());
    let mut handle = open_rw(&mut vfs);
    handle.write_all_at(&mut vfs.store, &[], 9000).unwrap();
    assert_eq!(handle.size(), 9000);
    assert!(!handle.buffer.dirty);
    assert_eq!(handle.buffer.pages.len(), 0);
}

#[test]
fn write_past_the_largest_offset_is_rejected() {
    let mut vfs = CraftVfs::new(MemStore::new());
    let mut handle = open_rw(&mut vfs);
    let err = handle.write_all_at(&mut vfs.store, &[1, 2], u64::MAX).unwrap_err();
    assert_eq!(err.kind, VfsErrorKind::InvalidInput);
    assert_eq!(handle.size(), 0);
    assert!(!handle.buffer.dirty);
}

#[test]
fn read_past_a_short_page_fills_with_zeros() {
    let mut vfs = CraftVfs::new(MemStore::new());
    let cid = vfs.store.put(&Page { data: vec![9u8; 10] }).unwrap();
    let mut table = PageTable::new();
    table.set(0, cid);
    let handle = CraftDbHandle { buffer: PageBuffer::new(table, 512), lock: LockKind::Unlocked };
    let mut expected = vec![9u8; 10];
    expected.extend_from_slice(&[0u8; 20]);
    assert_eq!(read(&handle, &mut vfs.store, 0, 30), expected);
    assert_eq!(read(&handle, &mut vfs.store, 8, 4), vec![9, 9, 0, 0]);
}

#[test]
fn read_fails_when_the_store_fails() {
    let mut store = Unreadable;
    let mut table = PageTable::new();
    table.set(0, Cid::from_bytes(b"x"));
    let handle = CraftDbHandle { buffer: PageBuffer::new(table, 512), lock: LockKind::Unlocked };
    let mut out = vec![0u8; 4];
    let err = handle.read_exact_at(&mut store, &mut out, 0).unwrap_err();
    assert_eq!(err.kind, VfsErrorKind::Other);
    assert_eq!(err.message, "storage error: disk on fire");
    // A page that is not in the table needs no store.
    handle.read_exact_at(&mut store, &mut out, 512).unwrap();
    assert_eq!(out, vec![0u8; 4]);
}

#[test]
fn write_over_a_page_that_the_store_cannot_give_fails() {
    let mut store = Unreadable;
    let mut table = PageTable::new();
    table.set(1, Cid::from_bytes(b"x"));
    let mut handle = CraftDbHandle { buffer: PageBuffer::new(table, 512), lock: LockKind::Unlocked };
    // Page 0 is not in the table and needs no store; page 1 is and does.
    let err = handle.write_all_at(&mut store, &[7u8; 600], 0).unwrap_err();
    assert_eq!(err.kind, VfsErrorKind::Other);
    assert_eq!(err.message, "storage error: disk on fire");
    // The page before the failing one is written, the failing one is not,
    // and the file is as long as it was.
    assert_eq!(handle.buffer.pages[0], Some(vec![7u8; 512]));
    assert_eq!(handle.buffer.pages[1], None);
    assert_eq!(handle.size(), 1024);
    // A write that needs no page of the store succeeds.
    handle.write_all_at(&mut store, &[1, 2, 3], 4).unwrap();
    assert_eq!(&handle.buffer.pages[0].clone().unwrap()[..8], &[7, 7, 7, 7, 1, 2, 3, 7]);
    handle.write_all_at(&mut store, &[9u8; 512], 1024).unwrap();
    assert_eq!(handle.buffer.pages[2], Some(vec![9u8; 512]));
}

#[test]
fn write_over_a_stored_page_keeps_the_rest_of_it() {
    let mut vfs = CraftVfs::new(MemStore::new());
    let cid = vfs.store.put(&Page { data: vec![9u8; 512] }).unwrap();
    let mut table = PageTable::new();
    table.set(0, cid);
    let mut handle = CraftDbHandle { buffer: PageBuffer::new(table, 512), lock: LockKind::Unlocked };
    handle.write_all_at(&mut vfs.store, &[1, 2, 3], 4).unwrap();
    let page = handle.buffer.pages[0].clone().unwrap();
    assert_eq!(&page[..8], &[9, 9, 9, 9, 1, 2, 3, 9]);
    assert_eq!(&page[8..], &[9u8; 504][..]);
}

#[test]
fn sync_stores_pages_and_table_and_sets_the_root() {
    let mut vfs = CraftVfs::new(MemStore::new());
    let mut handle = open_rw(&mut vfs);
    let first = header_page(512, 1);
    let second = vec![2u8; 512];
    handle.write_all_at(&mut vfs.store, &first, 0).unwrap();
    handle.write_all_at(&mut vfs.store, &second, 512).unwrap();
    handle.sync(&mut vfs.store, false).unwrap();

    assert!(!handle.buffer.dirty);
    assert!(handle.buffer.pages.iter().all(|p| p.is_none()));
    assert_eq!(handle.buffer.pages.len(), 2);
    assert_eq!(handle.buffer.page_table.get(0), Some(&Cid::from_bytes(&first)));
    assert_eq!(handle.buffer.page_table.get(1), Some(&Cid::from_bytes(&second)));
    // For every page that was buffered the store gives those bytes back.
    assert_eq!(vfs.store.get(&Cid::from_bytes(&first)).unwrap().data, first);
    assert_eq!(vfs.store.get(&Cid::from_bytes(&second)).unwrap().data, second);
    // The root names the stored table.
    let root = vfs.store.current_root().unwrap().unwrap();
    assert_eq!(root, Cid::from_bytes(&handle.buffer.page_table.to_bytes()));
    assert_eq!(vfs.store.get(&root).unwrap().data, handle.buffer.page_table.to_bytes());
    // Reads now come from the store.
    assert_eq!(read(&handle, &mut vfs.store, 512, 512), second);
}

#[test]
fn sync_of_a_clean_buffer_does_nothing() {
    let mut vfs = CraftVfs::new(MemStore::new());
    let mut handle = open_rw(&mut vfs);
    handle.sync(&mut vfs.store, false).unwrap();
    assert_eq!(vfs.store.pages.len(), 0);
    assert_eq!(vfs.store.current_root().unwrap(), None);
}

#[test]
fn failed_sync_keeps_the_buffer_and_the_root() {
    let mut store = Unreadable;
    let mut handle = CraftDbHandle {
        buffer: PageBuffer::new(PageTable::new(), 512),
        lock: LockKind::Unlocked,
    };
    handle.write_all_at(&mut store, &[1u8; 512], 0).unwrap();
    let err = handle.sync(&mut store, false).unwrap_err();
    assert_eq!(err.kind, VfsErrorKind::Other);
    assert!(handle.buffer.dirty);
    assert_eq!(handle.buffer.pages[0], Some(vec![1u8; 512]));
    assert!(handle.buffer.page_table.is_empty());
}

#[test]
fn reopen_finds_what_was_committed() {
    let mut vfs = CraftVfs::new(MemStore::new());
    let mut handle = open_rw(&mut vfs);
    handle.write_all_at(&mut vfs.store, &header_page(1024, 3), 0).unwrap();
    handle.write_all_at(&mut vfs.store, &[4u8; 1024], 1024).unwrap();
    handle.sync(&mut vfs.store, false).unwrap();

    let handle = vfs.open(OpenKind::MainDb, OpenAccess::Read).unwrap();
    assert_eq!(handle.buffer.page_size, 1024);
    assert_eq!(handle.buffer.page_table.len(), 2);
    assert_eq!(handle.size(), 2048);
    assert_eq!(handle.current_lock(), LockKind::Unlocked);
    assert_eq!(read(&handle, &mut vfs.store, 0, 1024), header_page(1024, 3));
    assert_eq!(read(&handle, &mut vfs.store, 1024, 1024), vec![4u8; 1024]);
}

#[test]
fn open_read_only_needs_a_root() {
    let mut vfs = CraftVfs::new(MemStore::new());
    let err = vfs.open(OpenKind::MainDb, OpenAccess::Read).unwrap_err();
    assert_eq!(err.kind, VfsErrorKind::NotFound);
    assert_eq!(err.message, "database not found");
    for access in [OpenAccess::Write, OpenAccess::Create, OpenAccess::CreateNew] {
        let handle = vfs.open(OpenKind::MainDb, access).unwrap();
        assert!(handle.buffer.page_table.is_empty());
        assert_eq!(handle.buffer.page_size, 4096);
        assert_eq!(handle.size(), 0);
    }
}

#[test]
fn open_of_an_auxiliary_file_gives_an_empty_handle() {
    let mut vfs = CraftVfs::new(Unreadable);
    for kind in [
        OpenKind::MainJournal,
        OpenKind::TempDb,
        OpenKind::TempJournal,
        OpenKind::TransientDb,
        OpenKind::SubJournal,
        OpenKind::SuperJournal,
        OpenKind::Wal,
    ] {
        let handle = vfs.open(kind, OpenAccess::Read).unwrap();
        assert_eq!(handle.size(), 0);
        assert!(handle.buffer.page_table.is_empty());
        assert_eq!(handle.buffer.page_size, 4096);
    }
}

#[test]
fn open_reports_a_table_that_does_not_parse() {
    let mut vfs = CraftVfs::new(MemStore::new());
    let root = vfs.store.put(&Page { data: vec![1, 2, 3] }).unwrap();
    vfs.store.update_root(root).unwrap();
    let err = vfs.open(OpenKind::MainDb, OpenAccess::Write).unwrap_err();
    assert_eq!(err.kind, VfsErrorKind::InvalidData);
}

#[test]
fn open_reports_a_store_that_fails() {
    let mut vfs = CraftVfs::new(Unreadable);
    let err = vfs.open(OpenKind::MainDb, OpenAccess::Write).unwrap_err();
    assert_eq!(err.kind, VfsErrorKind::Other);
}

#[test]
fn open_takes_the_default_size_when_the_first_page_has_none() {
    let mut vfs = CraftVfs::new(MemStore::new());
    let page = vfs.store.put(&Page { data: vec![1u8; 100] }).unwrap();
    let mut table = PageTable::new();
    table.set(0, page);
    let root = vfs.store.put(&Page { data: table.to_bytes() }).unwrap();
    vfs.store.update_root(root).unwrap();
    let handle = vfs.open(OpenKind::MainDb, OpenAccess::Write).unwrap();
    assert_eq!(handle.buffer.page_size, 4096);
}

#[test]
fn set_len_truncates_buffer_and_table() {
    let mut vfs = CraftVfs::new(MemStore::new());
    let mut handle = open_rw(&mut vfs);
    handle.write_all_at(&mut vfs.store, &header_page(512, 1), 0).unwrap();
    handle.write_all_at(&mut vfs.store, &[2u8; 1024], 512).unwrap();
    handle.sync(&mut vfs.store, false).unwrap();
    handle.write_all_at(&mut vfs.store, &[3u8; 512], 1024).unwrap();

    handle.set_len(513);
    assert_eq!(handle.size(), 513);
    assert_eq!(handle.buffer.pages.len(), 2);
    assert_eq!(handle.buffer.page_table.len(), 2);
    assert!(handle.buffer.dirty);

    handle.set_len(512);
    assert_eq!(handle.buffer.pages.len(), 1);
    assert_eq!(handle.buffer.page_table.len(), 1);

    // Growing drops nothing.
    handle.set_len(1 << 40);
    assert_eq!(handle.size(), 1 << 40);
    assert_eq!(handle.buffer.pages.len(), 1);

    handle.set_len(0);
    assert_eq!(handle.buffer.pages.len(), 0);
    assert!(handle.buffer.page_table.is_empty());
}

#[test]
fn locks_are_recorded_and_always_granted() {
    let mut vfs = CraftVfs::new(MemStore::new());
    let mut handle = open_rw(&mut vfs);
    assert_eq!(handle.current_lock(), LockKind::Unlocked);
    for kind in [LockKind::Shared, LockKind::Reserved, LockKind::Pending, LockKind::Exclusive] {
        assert!(handle.lock(kind));
        assert_eq!(handle.current_lock(), kind);
        assert!(!handle.reserved());
    }
}

#[test]
fn database_exists_once_it_has_a_root() {
    let mut vfs = CraftVfs::new(MemStore::new());
    assert!(!vfs.database_exists("db").unwrap());
    vfs.store.update_root(Cid::from_bytes(b"root")).unwrap();
    assert!(vfs.database_exists("db").unwrap());
    assert!(!vfs.database_exists("db-journal").unwrap());
    assert!(!vfs.database_exists("db-wal").unwrap());
    assert!(!vfs.database_exists("db-shm").unwrap());
    assert!(vfs.database_exists("db-shmx").unwrap());
}

#[test]
fn delete_resets_the_root() {
    let mut vfs = CraftVfs::new(MemStore::new());
    vfs.store.update_root(Cid::from_bytes(b"root")).unwrap();
    vfs.delete("db-journal").unwrap();
    vfs.delete("db-wal").unwrap();
    vfs.delete("db-shm").unwrap();
    assert!(vfs.database_exists("db").unwrap());
    vfs.delete("db").unwrap();
    assert!(!vfs.database_exists("db").unwrap());
    assert_eq!(vfs.store.current_root().unwrap(), None);
}

#[test]
fn auxiliary_names() {
    assert!(CraftVfs::<MemStore>::is_auxiliary("main.db-journal"));
    assert!(CraftVfs::<MemStore>::is_auxiliary("-wal"));
    assert!(!CraftVfs::<MemStore>::is_auxiliary("journal"));
    assert!(!CraftVfs::<MemStore>::is_auxiliary(""));
    assert!(!CraftVfs::<MemStore>::is_auxiliary("-shm "));
}

#[test]
fn temporary_names_are_fresh() {
    let a = CraftVfs::<MemStore>::temporary_name();
    let b = CraftVfs::<MemStore>::temporary_name();
    assert!(a.starts_with("craftsql-tmp-"));
    assert_eq!(a.len(), 13 + 36);
    assert_eq!(a.as_bytes()[13 + 8], b'-');
    assert_ne!(a, b);
}

/// Writes one row, which here is one page that starts with the row's
/// value, and commits.
fn insert(vfs: &mut CraftVfs<MemStore>, value: u16) {
    let mut handle = open_rw(vfs);
    let page_count = handle.buffer.page_table.len();
    if page_count == 0 {
        handle.write_all_at(&mut vfs.store, &header_page(512, 0), 0).unwrap();
    }
    let at = handle.size();
    let mut row = vec![0u8; 512];
    row[..2].copy_from_slice(&value.to_be_bytes());
    handle.write_all_at(&mut vfs.store, &row, at).unwrap();
    handle.sync(&mut vfs.store, false).unwrap();
}

/// The values of all rows.
fn rows(vfs: &mut CraftVfs<MemStore>) -> Vec<u16> {
    let handle = vfs.open(OpenKind::MainDb, OpenAccess::Read).unwrap();
    let count = handle.size() / 512;
    (1..count)
        .map(|i| {
            let bytes = read(&handle, &mut vfs.store, i * 512, 2);
            u16::from_be_bytes([bytes[0], bytes[1]])
        })
        .collect()
}

#[test]
fn snapshot_and_restore() {
    let mut vfs = CraftVfs::new(MemStore::new());
    insert(&mut vfs, 1);

    // Take snapshot
    let snap_cid = vfs.store.current_root().unwrap().unwrap();
    vfs.store.set_named_root("v1", snap_cid).unwrap();

    // Modify data
    insert(&mut vfs, 2);
    insert(&mut vfs, 3);
    assert_eq!(rows(&mut vfs).len(), 3);

    // Restore snapshot v1
    let v1_cid = vfs.store.get_named_root("v1").unwrap().unwrap();
    vfs.store.update_root(v1_cid).unwrap();
    assert_eq!(rows(&mut vfs).len(), 1);
}

#[test]
fn branches_diverge() {
    let mut vfs = CraftVfs::new(MemStore::new());
    insert(&mut vfs, 100);
    let base = vfs.store.current_root().unwrap().unwrap();
    vfs.store.set_named_root("main", base).unwrap();
    vfs.store.set_named_root("feature", base).unwrap();

    // Diverge on "main": add row 200
    let main = vfs.store.get_named_root("main").unwrap().unwrap();
    vfs.store.update_root(main).unwrap();
    insert(&mut vfs, 200);
    let main = vfs.store.current_root().unwrap().unwrap();
    vfs.store.set_named_root("main", main).unwrap();

    // Diverge on "feature": add row 300
    let feature = vfs.store.get_named_root("feature").unwrap().unwrap();
    vfs.store.update_root(feature).unwrap();
    insert(&mut vfs, 300);
    let feature = vfs.store.current_root().unwrap().unwrap();
    vfs.store.set_named_root("feature", feature).unwrap();

    let main = vfs.store.get_named_root("main").unwrap().unwrap();
    vfs.store.update_root(main).unwrap();
    let sum: u32 = rows(&mut vfs).iter().map(|v| *v as u32).sum();
    assert_eq!(sum, 300);

    let feature = vfs.store.get_named_root("feature").unwrap().unwrap();
    vfs.store.update_root(feature).unwrap();
    let sum: u32 = rows(&mut vfs).iter().map(|v| *v as u32).sum();
    assert_eq!(sum, 400);
}

#[test]
fn test_snapshot_list_and_remove() {
    let mut vfs = CraftVfs::new(MemStore::new());
    insert(&mut vfs, 1);

    let root = vfs.store.current_root().unwrap().unwrap();
    vfs.store.set_named_root("alpha", root).unwrap();
    vfs.store.set_named_root("beta", root).unwrap();
    vfs.store.set_named_root("gamma", root).unwrap();

    let roots = vfs.store.list_named_roots().unwrap();
    assert_eq!(roots.len(), 3);
    assert_eq!(roots[0].0, "alpha");
    assert_eq!(roots[1].0, "beta");
    assert_eq!(roots[2].0, "gamma");

    // Remove one
    assert!(vfs.store.remove_named_root("beta").unwrap());
    assert!(!vfs.store.remove_named_root("beta").unwrap());
    assert_eq!(vfs.store.list_named_roots().unwrap().len(), 2);
}

#[test]
fn test_page_table_diff_via_snapshots() {
    let mut vfs = CraftVfs::new(MemStore::new());

    // Create initial state
    insert(&mut vfs, 1);
    let root_v1 = vfs.store.current_root().unwrap().unwrap();
    vfs.store.set_named_root("v1", root_v1).unwrap();

    // Modify
    insert(&mut vfs, 2);
    let root_v2 = vfs.store.current_root().unwrap().unwrap();

    // Load both page tables and diff
    let pt1_data = vfs.store.get(&root_v1).unwrap();
    let pt1 = PageTable::from_bytes(&pt1_data.data).unwrap();

    let pt2_data = vfs.store.get(&root_v2).unwrap();
    let pt2 = PageTable::from_bytes(&pt2_data.data).unwrap();

    let diff = pt2.diff(&pt1);
    // At least one page should have changed (the data page with the new row)
    assert!(!diff.changed.is_empty());
    assert_eq!(diff.changed.len(), 1);
    let mut row = vec![0u8; 512];
    row[1] = 2;
    assert_eq!(diff.changed[0], (2, None, Some(Cid::from_bytes(&row))));
}

#[test]
fn without_a_root_only_a_read_only_open_finds_no_database() {
    match table_without_root(OpenAccess::Read) {
        Err(e) => {
            assert_eq!(e.kind, VfsErrorKind::NotFound);
            assert_eq!(e.message, "database not found");
        }
        Ok(_) => panic!("expected an error"),
    }
    for access in [OpenAccess::Write, OpenAccess::Create, OpenAccess::CreateNew] {
        assert_eq!(table_without_root(access).unwrap().len(), 0);
    }
}

#[test]
fn the_root_page_must_read_as_a_table() {
    let mut table = PageTable::new();
    table.set(1, Cid::from_bytes(b"one"));
    let read = table_of_root(&table.to_bytes()).unwrap();
    assert_eq!(read.entries, table.entries);
    match table_of_root(b"no table") {
        Err(e) => assert_eq!(e.kind, VfsErrorKind::InvalidData),
        Ok(_) => panic!("expected an error"),
    }
}

#[test]
fn a_handle_takes_its_page_size_from_the_first_page() {
    let mut table = PageTable::new();
    table.set(2, Cid::from_bytes(b"third"));

    let handle = handle_for(table.clone(), Some(8192)).unwrap();
    assert_eq!(handle.buffer.page_size, 8192);
    assert_eq!(handle.buffer.file_size, 3 * 8192);
    assert_eq!(handle.buffer.page_table.entries, table.entries);
    assert_eq!(handle.buffer.pages, vec![None, None, None]);
    assert!(!handle.buffer.dirty);
    assert_eq!(handle.lock, LockKind::Unlocked);

    let odd = handle_for(table.clone(), Some(100)).unwrap();
    assert_eq!(odd.buffer.page_size, 4096);
    assert_eq!(odd.size(), 3 * 4096);

    let unseen = handle_for(PageTable::new(), None).unwrap();
    assert_eq!(unseen.buffer.page_size, 4096);
    assert_eq!(unseen.size(), 0);
}

#[test]
fn a_database_exists_where_the_root_is_set_and_not_null() {
    assert_eq!(root_exists(Ok(Some(Cid::from_bytes(b"root")))).unwrap(), true);
    assert_eq!(root_exists(Ok(Some(Cid::null()))).unwrap(), false);
    assert_eq!(root_exists(Ok(None)).unwrap(), false);
    match root_exists(Err(PageStoreError::Io("disk gone".to_string()))) {
        Err(e) => {
            assert_eq!(e.kind, VfsErrorKind::Other);
            assert_eq!(e.message, "io error: disk gone");
        }
        Ok(_) => panic!("expected an error"),
    }
}

#[test]
fn a_deletion_fails_with_the_message_of_the_store() {
    assert!(root_reset(Ok(())).is_ok());
    match root_reset(Err(PageStoreError::Storage("read only".to_string()))) {
        Err(e) => {
            assert_eq!(e.kind, VfsErrorKind::Other);
            assert_eq!(e.message, "storage error: read only");
        }
        Ok(_) => panic!("expected an error"),
    }
}
