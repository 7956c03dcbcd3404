//! A page store over a network of blobs, with a local store as its cache.
//!
//! `put` writes to the cache only. `update_root` packs the committed table
//! and all its pages into one bundle, publishes the bundle as a single blob
//! and makes the bundle's identifier the root. `get` on a miss fetches the
//! bundle that the root names and unpacks it into the cache.

use vstd::prelude::*;
use crate::bundle::append_block;
use crate::bundle::check_bundle;
use crate::bundle::read_block;
use crate::bundle::read_table;
use crate::bundle::write_header;
use crate::bytes::copy_bytes;
use crate::cid::Cid;
use crate::cid::Page;
use crate::cid::PageStoreError;
use crate::page_table::PageTable;
use crate::store::NetworkBackend;
use crate::store::PageStore;
use crate::store::bump;
use crate::store::named_by;
use crate::text::joined;
use crate::text::owned;

verus! {

/// Counters for observability: reads served by the cache, and reads that
/// had to go further.
#[derive(Debug)]
pub struct CacheStats {
    pub hits: u64,
    pub misses: u64,
}

impl CacheStats {
    /// Counters at zero.
    pub fn new() -> (stats: CacheStats)
        ensures
            stats.hits == 0,
            stats.misses == 0,
    {
        CacheStats { hits: 0, misses: 0 }
    }
}

/// Whether `page` can stand in a bundle for a slot with this entry: a page
/// that the cache holds under the entry's identifier, or nothing for an
/// absent slot.
pub open spec fn bundled_page(entry: Option<Cid>, held: Set<Seq<u8>>, page: Seq<u8>) -> bool {
    match entry {
        Some(cid) => held.contains(page) && cid == Cid::of(page),
        None => page.len() == 0,
    }
}

/// Whether `pages` can be the pages of a table's first `n` slots, taken
/// from the cache.
pub open spec fn bundled_pages(
    table: Seq<Option<Cid>>,
    held: Set<Seq<u8>>,
    pages: Seq<Seq<u8>>,
    n: int,
) -> bool {
    &&& pages.len() == n
    &&& forall|i: int| 0 <= i < n ==> bundled_page(table[i], held, #[trigger] pages[i])
}

/// Whether `blob` can be the bundle of a table whose pages the cache
/// holds.
pub open spec fn bundle_of(
    page_size: u32,
    table: Seq<Option<Cid>>,
    held: Set<Seq<u8>>,
    blob: Seq<u8>,
) -> bool {
    exists|pages: Seq<Seq<u8>>|
        #[trigger] bundled_pages(table, held, pages, table.len() as int) && blob
            == crate::bundle::bundle_encoding(
            page_size,
            crate::page_table::raw_entries(table),
            pages,
        )
}

/// Whether `table` is the table that the cache holds under the identifier
/// `cid`.
pub open spec fn committed_table(cid: Cid, held: Set<Seq<u8>>, table: Seq<Option<Cid>>) -> bool {
    exists|page: Seq<u8>|
        #![trigger held.contains(page)]
        held.contains(page) && cid == Cid::of(page) && crate::page_table::table_decoding(page)
            == Some(crate::page_table::raw_entries(table))
}

/// The page size that a first page of `len` bytes shows: `len`, or 4096
/// where `len` does not fit the format's field.
pub open spec fn page_size_shown(len: nat) -> u32 {
    if len <= u32::MAX {
        len as u32
    } else {
        4096
    }
}

/// Whether `page_size` is the page size of a table's bundle: what the
/// first page shows as the cache holds it; 4096 where the cache refused
/// the first page or the table has none.
pub open spec fn first_page_size(
    table: Seq<Option<Cid>>,
    held: Set<Seq<u8>>,
    refused: Set<Cid>,
    page_size: u32,
) -> bool {
    match crate::page_table::entry_at(table, 0) {
        Some(first) => (refused.contains(first) && page_size == 4096) || exists|page: Seq<u8>|
            #![trigger held.contains(page)]
            held.contains(page) && first == Cid::of(page) && page_size == page_size_shown(
                page.len(),
            ),
        None => page_size == 4096,
    }
}

/// Whether `blob` can be what a commit of the table under `new_root`
/// publishes: the bundle of that table and its pages as the cache holds
/// them, at the page size that the first page shows.
pub open spec fn commits(
    new_root: Cid,
    held: Set<Seq<u8>>,
    refused: Set<Cid>,
    blob: Seq<u8>,
) -> bool {
    exists|table: Seq<Option<Cid>>, page_size: u32|
        {
            &&& #[trigger] bundle_of(page_size, table, held, blob)
            &&& committed_table(new_root, held, table)
            &&& first_page_size(table, held, refused, page_size)
        }
}

/// The page size for a bundle, from what the cache answered for the
/// table's first page: the length of the page that it gave, or 4096 where
/// that does not fit the format's field, where the cache gave none, or
/// where the table has no first page and the cache was not asked.
pub fn page_size_from_first(answer: &Option<Result<Page, PageStoreError>>) -> (page_size: u32)
    ensures
        page_size == match answer {
            Some(Ok(page)) => page_size_shown(page.data@.len()),
            _ => 4096u32,
        },
{
    match answer {
        Some(Ok(page)) => if page.data.len() <= 0xffff_ffff {
            page.data.len() as u32
        } else {
            4096
        },
        _ => 4096,
    }
}

/// The page that a fetch brought, if its digest is the one asked for; a
/// storage error if it is not.
pub fn check_fetched(cid: &Cid, data: Vec<u8>) -> (res: Result<Page, PageStoreError>)
    ensures
        res is Ok <==> *cid == Cid::of(data@),
        res matches Ok(page) ==> page.data == data,
        res matches Err(e) ==> e matches PageStoreError::Storage(msg) && msg@ == (
        "CID mismatch: expected "@ + crate::cid::hex_text(cid@).subrange(0, 16)) + (", got "@ + crate::cid::hex_text(
            crate::cid::sha256(data@),
        ).subrange(0, 16)),
{
    let actual = Cid::from_bytes(data.as_slice());
    if actual != *cid {
        let expected = joined("CID mismatch: expected ", cid.to_string().as_str());
        let got = joined(", got ", actual.to_string().as_str());
        return Err(PageStoreError::Storage(joined(expected.as_str(), got.as_str())));
    }
    Ok(Page { data })
}

/// The storage error for an unreadable cache page: what was being read, then the cache's message.
fn unreadable(what: &str, e: &PageStoreError) -> (err: PageStoreError)
    ensures
        err matches PageStoreError::Storage(msg) && msg@ == what@ + e.spec_text(),
{
    PageStoreError::Storage(joined(what, e.to_string().as_str()))
}

/// The root that an answer of the network names: the identifier it gives,
/// unless it is the null identifier. An answer without one, or a failure,
/// names none, and the cache is asked instead.
pub fn root_from_network(answer: Result<Option<Cid>, PageStoreError>) -> (root: Option<Cid>)
    ensures
        root == match answer {
            Ok(Some(cid)) => if cid.spec_is_null() {
                None
            } else {
                Some(cid)
            },
            _ => None,
        },
{
    match answer {
        Ok(Some(cid)) => if cid.is_null() {
            None
        } else {
            Some(cid)
        },
        _ => None,
    }
}

/// The bundle to fetch and unpack after a miss, from the root and from
/// whether the cache holds a page under the root's identifier: the root's
/// bundle, unless the cache holds it.
pub fn bundle_to_fetch(root: Cid, cached: bool) -> (bundle: Option<Cid>)
    ensures
        bundle == if cached {
            None
        } else {
            Some(root)
        },
{
    if cached {
        None
    } else {
        Some(root)
    }
}

/// Whether a counter of fetches went from `before` to `after` by no more
/// than two calls: a miss fetches a bundle at most once and the page itself
/// at most once.
pub open spec fn fetched_at_most_twice(before: u64, after: u64) -> bool {
    ||| after == before
    ||| after == crate::store::bumped(before)
    ||| after == crate::store::bumped(crate::store::bumped(before))
}

/// Whether a named root was removed, from what the cache and the network
/// answered: `true` if either had it; a side that failed counts as not
/// having had it.
pub fn removed_from_either(
    local: Result<bool, PageStoreError>,
    network: Result<bool, PageStoreError>,
) -> (removed: bool)
    ensures
        removed == (local == Ok::<bool, PageStoreError>(true) || network == Ok::<
            bool,
            PageStoreError,
        >(true)),
{
    let local_removed = match local {
        Ok(removed) => removed,
        Err(_) => false,
    };
    let network_removed = match network {
        Ok(removed) => removed,
        Err(_) => false,
    };
    local_removed || network_removed
}

/// Page store over a network backend, with a local store as its cache.
pub struct CraftObjPageStore<L: PageStore, N: NetworkBackend> {
    /// The cache.
    pub local: L,
    /// The network backend.
    pub network: N,
    /// Reads served by the cache and reads that were not.
    pub stats: CacheStats,
    /// The root as this store last took or reported it.
    pub last_root: Option<Cid>,
    /// How many pages `put` has stored.
    pub accepted: Ghost<nat>,
}

impl<L: PageStore, N: NetworkBackend> CraftObjPageStore<L, N> {
    /// The store's invariant: those of its cache and of its network.
    pub open spec fn inv(&self) -> bool {
        self.local.wf() && self.network.wf()
    }

    /// Whether the cache lost nothing since `before` and holds the named
    /// roots that it held.
    pub open spec fn cache_kept(&self, before: &Self) -> bool {
        &&& crate::store::nothing_lost(&before.local, &self.local)
        &&& self.local.named() == before.local.named()
    }

    /// Whether the network lost no blob since `before`, holds the root and
    /// the named roots that it held, and was given no blob to publish.
    pub open spec fn network_kept(&self, before: &Self) -> bool {
        &&& before.network.published().subset_of(self.network.published())
        &&& self.network.root() == before.network.root()
        &&& self.network.named() == before.network.named()
        &&& self.network.publishes() == before.network.publishes()
    }

    /// A store over a cache and a network, with its counters at zero.
    pub fn new(local: L, network: N) -> (store: Self)
        ensures
            store.local == local,
            store.network == network,
            store.stats.hits == 0,
            store.stats.misses == 0,
            store.last_root is None,
            store.accepted@ == 0,
    {
        CraftObjPageStore {
            local,
            network,
            stats: CacheStats::new(),
            last_root: None,
            accepted: Ghost(0),
        }
    }

    /// Access to the network backend.
    pub fn network(&self) -> (network: &N)
        ensures
            *network == self.network,
    {
        &self.network
    }

    /// Whether the cache can serve a page.
    pub fn is_cached(&mut self, cid: &Cid) -> (cached: bool)
        requires
            old(self).local.wf(),
        ensures
            final(self).accepted == old(self).accepted,
            final(self).local.wf(),
            old(self).local.pages().subset_of(final(self).local.pages()),
            final(self).cache_kept(old(self)),
            final(self).local.root() == old(self).local.root(),
            final(self).network == old(self).network,
            final(self).stats == old(self).stats,
            final(self).last_root == old(self).last_root,
            cached ==> exists|page: Seq<u8>|
                #![trigger final(self).local.pages().contains(page)]
                final(self).local.pages().contains(page) && *cid == Cid::of(page),
            !cached ==> final(self).local.refused().contains(*cid),
    {
        match self.local.get(cid) {
            Ok(page) => {
                assert(self.local.pages().contains(page.data@));
                true
            },
            Err(_) => false,
        }
    }

    /// Packs the pages of a table into one bundle: the header, then for
    /// each slot a block with the page that the cache gives for the slot's
    /// identifier, zeros after a page shorter than `page_size`, and a block
    /// of zeros for an absent slot. Fails where the table does not fit the
    /// format or the cache cannot give a page.
    pub fn bundle_pages(&mut self, page_table: &PageTable, page_size: u32) -> (res: Result<
        Vec<u8>,
        PageStoreError,
    >)
        requires
            old(self).local.wf(),
        ensures
            final(self).accepted == old(self).accepted,
            final(self).local.wf(),
            old(self).local.pages().subset_of(final(self).local.pages()),
            final(self).cache_kept(old(self)),
            final(self).local.root() == old(self).local.root(),
            final(self).network == old(self).network,
            final(self).stats == old(self).stats,
            final(self).last_root == old(self).last_root,
            res matches Ok(blob) ==> bundle_of(
                page_size,
                page_table@,
                final(self).local.pages(),
                blob@,
            ),
            res matches Err(e) ==> e is Storage,
            !crate::bundle::fits_bundle(crate::page_table::raw_entries(page_table@)) ==> res is Err,
            crate::bundle::fits_bundle(crate::page_table::raw_entries(page_table@)) && (forall|
                i: int,
            |
                0 <= i < page_table@.len() ==> (#[trigger] page_table@[i]) is None) ==> res is Ok,
    {
        let mut buf = match write_header(page_size, page_table) {
            Some(buf) => buf,
            None => {
                return Err(PageStoreError::Storage(owned("page table too large for a bundle")));
            },
        };
        let ghost mut pages: Seq<Seq<u8>> = Seq::empty();
        let count = page_table.len();
        let mut i: usize = 0;
        while i < count
            invariant
                i <= count,
                count == page_table@.len(),
                self.accepted == old(self).accepted,
                self.local.wf(),
                old(self).local.pages().subset_of(self.local.pages()),
                self.cache_kept(old(self)),
                self.local.root() == old(self).local.root(),
                self.network == old(self).network,
                self.stats == old(self).stats,
                self.last_root == old(self).last_root,
                bundled_pages(page_table@, self.local.pages(), pages, i as int),
                buf@ == crate::bundle::header(page_size, crate::page_table::raw_entries(page_table@))
                    + crate::bundle::blocks(pages, page_size as nat),
            decreases count - i,
        {
            let ghost before = pages;
            let ghost held = self.local.pages();
            let ghost buf_before = buf@;
            match page_table.entry(i) {
                Some(cid) => {
                    let page = match self.local.get(&cid) {
                        Ok(page) => page,
                        Err(e) => {
                            return Err(unreadable("read cached page: ", &e));
                        },
                    };
                    append_block(&mut buf, page.data.as_slice(), page_size);
                    proof {
                        pages = before.push(page.data@);
                    }
                },
                None => {
                    let empty: Vec<u8> = Vec::new();
                    append_block(&mut buf, empty.as_slice(), page_size);
                    proof {
                        pages = before.push(Seq::empty());
                    }
                },
            }
            proof {
                assert(pages.drop_last() == before);
                assert forall|k: int| 0 <= k < i + 1 implies bundled_page(
                    page_table@[k],
                    self.local.pages(),
                    #[trigger] pages[k],
                ) by {
                    if k < i {
                        assert(pages[k] == before[k]);
                        assert(bundled_page(page_table@[k], held, before[k]));
                    }
                }
                assert(buf@ == crate::bundle::header(
                    page_size,
                    crate::page_table::raw_entries(page_table@),
                ) + crate::bundle::blocks(pages, page_size as nat)) by {
                    let h = crate::bundle::header(page_size, crate::page_table::raw_entries(page_table@));
                    let b = crate::bundle::blocks(before, page_size as nat);
                    let p = crate::bytes::padded(pages.last(), page_size as nat);
                    assert(buf@ == (h + b) + p);
                    assert((h + b) + p =~= h + (b + p));
                }
            }
            i += 1;
        }
        Ok(buf)
    }

    /// Unpacks a bundle into the cache: every page block is stored as a
    /// page, and so is the table, which is returned.
    pub fn unbundle_pages(&mut self, data: &[u8]) -> (res: Result<PageTable, PageStoreError>)
        requires
            old(self).local.wf(),
        ensures
            final(self).accepted == old(self).accepted,
            final(self).local.wf(),
            old(self).local.pages().subset_of(final(self).local.pages()),
            final(self).cache_kept(old(self)),
            final(self).local.root() == old(self).local.root(),
            final(self).network == old(self).network,
            final(self).stats == old(self).stats,
            final(self).last_root == old(self).last_root,
            res matches Ok(table) ==> {
                &&& crate::bundle::layout_of(data@) matches Ok(layout)
                &&& crate::page_table::table_decoding(crate::bundle::table_part(data@, layout))
                    == Some(crate::page_table::raw_entries(table@))
                &&& forall|i: int|
                    0 <= i < layout.page_count ==> final(self).local.pages().contains(
                        #[trigger] crate::bundle::block_at(data@, layout, i),
                    )
                &&& final(self).local.pages().contains(
                    crate::page_table::table_encoding(crate::page_table::raw_entries(table@)),
                )
            },
            crate::bundle::layout_of(data@) is Err || crate::page_table::table_decoding(
                crate::bundle::table_part(data@, crate::bundle::layout_of(data@)->Ok_0),
            ) is None ==> res is Err && res->Err_0 is Storage && final(self).local == old(
                self,
            ).local,
    {
        let layout = match check_bundle(data) {
            Ok(layout) => layout,
            Err(fault) => {
                return Err(PageStoreError::Storage(fault.message()));
            },
        };
        let page_table = match read_table(data, &layout) {
            Ok(table) => table,
            Err(e) => {
                return Err(e);
            },
        };
        let mut i: u32 = 0;
        while i < layout.page_count
            invariant
                i <= layout.page_count,
                self.accepted == old(self).accepted,
                layout.pages_start + layout.page_count * layout.page_size == data@.len(),
                crate::bundle::layout_of(data@) == Ok::<crate::bundle::BundleLayout, crate::bundle::BundleFault>(layout),
                crate::page_table::table_decoding(crate::bundle::table_part(data@, layout)) is Some,
                self.local.wf(),
                old(self).local.pages().subset_of(self.local.pages()),
                self.cache_kept(old(self)),
                self.local.root() == old(self).local.root(),
                self.network == old(self).network,
                self.stats == old(self).stats,
                self.last_root == old(self).last_root,
                forall|k: int|
                    0 <= k < i ==> self.local.pages().contains(
                        #[trigger] crate::bundle::block_at(data@, layout, k),
                    ),
            decreases layout.page_count - i,
        {
            let block = read_block(data, &layout, i);
            let page = Page { data: copy_bytes(block) };
            match self.local.put(&page) {
                Ok(_) => {},
                Err(e) => {
                    return Err(e);
                },
            }
            i += 1;
        }
        let table_page = Page { data: page_table.to_bytes() };
        match self.local.put(&table_page) {
            Ok(_) => {},
            Err(e) => {
                return Err(e);
            },
        }
        Ok(page_table)
    }

    /// Fetches the bundle with the given identifier from the network,
    /// checks its digest and unpacks it into the cache.
    pub fn fetch_and_unbundle(&mut self, bundle_cid: &Cid) -> (res: Result<
        PageTable,
        PageStoreError,
    >)
        requires
            old(self).inv(),
        ensures
            final(self).accepted == old(self).accepted,
            final(self).inv(),
            old(self).local.pages().subset_of(final(self).local.pages()),
            final(self).cache_kept(old(self)),
            old(self).network.published().subset_of(final(self).network.published()),
            final(self).network_kept(old(self)),
            final(self).network.fetches() == crate::store::bumped(old(self).network.fetches()),
            final(self).local.root() == old(self).local.root(),
            final(self).stats == old(self).stats,
            final(self).last_root == old(self).last_root,
            res matches Ok(table) ==> exists|blob: Seq<u8>|
                #![trigger final(self).network.published().contains(blob)]
                {
                    &&& final(self).network.published().contains(blob)
                    &&& *bundle_cid == Cid::of(blob)
                    &&& crate::bundle::layout_of(blob) matches Ok(layout)
                    &&& crate::page_table::table_decoding(crate::bundle::table_part(blob, layout))
                        == Some(crate::page_table::raw_entries(table@))
                    &&& forall|i: int|
                        0 <= i < layout.page_count ==> final(self).local.pages().contains(
                            #[trigger] crate::bundle::block_at(blob, layout, i),
                        )
                },
    {
        let data = match self.network.fetch_page(bundle_cid) {
            Ok(data) => data,
            Err(e) => {
                return Err(e);
            },
        };
        let page = match check_fetched(bundle_cid, data) {
            Ok(page) => page,
            Err(e) => {
                return Err(e);
            },
        };
        let res = self.unbundle_pages(page.data.as_slice());
        proof {
            if res is Ok {
                assert(self.network.published().contains(page.data@));
            }
        }
        res
    }
}

impl<L: PageStore, N: NetworkBackend> CraftObjPageStore<L, N> {
    /// The root that the network gives, else the one that the cache holds.
    /// A root that the network gives is copied to the cache. The answer is
    /// the network's root or the cache's; no root means that the cache has
    /// none.
    fn resolve_root(&mut self) -> (res: Result<Option<Cid>, PageStoreError>)
        requires
            old(self).inv(),
        ensures
            final(self).accepted == old(self).accepted,
            final(self).inv(),
            old(self).local.pages().subset_of(final(self).local.pages()),
            final(self).cache_kept(old(self)),
            final(self).network.published() == old(self).network.published(),
            final(self).network.fetches() == old(self).network.fetches(),
            final(self).network_kept(old(self)),
            final(self).stats == old(self).stats,
            final(self).last_root == old(self).last_root,
            res matches Ok(Some(cid)) ==> !cid.spec_is_null() && (final(self).network.root() == Some(
                cid,
            ) || final(self).local.root() == Some(cid)),
            res matches Ok(None) ==> final(self).local.root() is None,
    {
        match root_from_network(self.network.get_root()) {
            Some(cid) => {
                let _ = self.local.update_root(cid);
                Ok(Some(cid))
            },
            None => self.local.current_root(),
        }
    }
}

impl<L: PageStore, N: NetworkBackend> PageStore for CraftObjPageStore<L, N> {
    open spec fn wf(&self) -> bool {
        self.inv()
    }

    open spec fn pages(&self) -> Set<Seq<u8>> {
        self.local.pages()
    }

    open spec fn root(&self) -> Option<Cid> {
        self.last_root
    }

    open spec fn accepted(&self) -> nat {
        self.accepted@
    }

    /// Serves the page from the cache, which counts as a hit. A miss is
    /// counted; then the bundle that the root names is fetched and
    /// unpacked, unless the cache holds a page under the root's identifier,
    /// and the cache is asked again. As a last resort the page itself is
    /// fetched from the network, checked against its identifier and stored
    /// in the cache. A hit leaves the network alone; a miss fetches at most
    /// two blobs and publishes none.
    fn get(&mut self, cid: &Cid) -> (res: Result<Page, PageStoreError>)
        ensures
            old(self).network.published().subset_of(final(self).network.published()),
            final(self).cache_kept(old(self)),
            final(self).network_kept(old(self)),
            ({
                &&& final(self).stats.hits == crate::store::bumped(old(self).stats.hits)
                &&& final(self).stats.misses == old(self).stats.misses
                &&& final(self).network == old(self).network
                &&& res is Ok
            }) || ({
                &&& final(self).stats.hits == old(self).stats.hits
                &&& final(self).stats.misses == crate::store::bumped(old(self).stats.misses)
                &&& fetched_at_most_twice(old(self).network.fetches(), final(self).network.fetches())
            }),
    {
        match self.local.get(cid) {
            Ok(page) => {
                self.stats.hits = bump(self.stats.hits);
                return Ok(page);
            },
            Err(_) => {},
        }
        self.stats.misses = bump(self.stats.misses);
        if let Some(root_cid) = named_by(self.resolve_root()) {
            let cached = self.is_cached(&root_cid);
            if let Some(bundle_cid) = bundle_to_fetch(root_cid, cached) {
                let _ = self.fetch_and_unbundle(&bundle_cid);
            }
        }
        match self.local.get(cid) {
            Ok(page) => {
                return Ok(page);
            },
            Err(_) => {},
        }
        let data = match self.network.fetch_page(cid) {
            Ok(data) => data,
            Err(e) => {
                return Err(e);
            },
        };
        let page = match check_fetched(cid, data) {
            Ok(page) => page,
            Err(e) => {
                return Err(e);
            },
        };
        match self.local.put(&page) {
            Ok(_) => Ok(page),
            Err(e) => Err(e),
        }
    }

    /// Stores the page in the cache only: nothing is published before the
    /// root is updated.
    fn put(&mut self, page: &Page) -> (res: Result<Cid, PageStoreError>)
        ensures
            final(self).network == old(self).network,
            final(self).cache_kept(old(self)),
            final(self).stats == old(self).stats,
            final(self).last_root == old(self).last_root,
    {
        let res = self.local.put(page);
        if res.is_ok() {
            self.accepted = Ghost(self.accepted@ + 1);
        }
        res
    }

    /// Commits the table that `new_root` names: reads it from the cache,
    /// packs it and all its pages into a bundle with the page size that the
    /// first page shows, publishes the bundle and nothing else, and makes
    /// the bundle's identifier the root in the cache and on the network: a
    /// network that keeps roots then holds it, one that keeps none holds
    /// what it held.
    fn update_root(&mut self, new_root: Cid) -> (res: Result<(), PageStoreError>)
        ensures
            final(self).cache_kept(old(self)),
            final(self).network.named() == old(self).network.named(),
            final(self).stats == old(self).stats,
            final(self).network.fetches() == old(self).network.fetches(),
            res is Ok ==> final(self).network.publishes() == crate::store::bumped(
                old(self).network.publishes(),
            ),
            res is Ok ==> exists|blob: Seq<u8>|
                #![trigger old(self).network.published().insert(blob)]
                {
                    &&& final(self).network.published() == old(self).network.published().insert(
                        blob,
                    )
                    &&& final(self).local.root() == crate::store::root_value(Cid::of(blob))
                    &&& final(self).network.root() == if old(self).network.keeps_roots() {
                        Some(Cid::of(blob))
                    } else {
                        old(self).network.root()
                    }
                    &&& commits(
                        new_root,
                        final(self).local.pages(),
                        final(self).local.refused(),
                        blob,
                    )
                },
            res is Err ==> final(self).last_root == old(self).last_root,
    {
        let table_page = match self.local.get(&new_root) {
            Ok(page) => page,
            Err(e) => {
                return Err(unreadable("read page table for bundling: ", &e));
            },
        };
        let page_table = match PageTable::from_bytes(table_page.data.as_slice()) {
            Ok(table) => table,
            Err(e) => {
                let text = crate::page_table::bincode_error_text(&e);
                return Err(PageStoreError::Storage(joined("parse page table: ", text.as_str())));
            },
        };
        let first = match page_table.entry(0) {
            Some(first) => Some(self.local.get(&first)),
            None => None,
        };
        let page_size = page_size_from_first(&first);
        assert(first_page_size(
            page_table@,
            self.local.pages(),
            self.local.refused(),
            page_size,
        )) by {
            if let Some(Ok(page)) = first {
                assert(self.local.pages().contains(page.data@));
            }
        }
        let ghost held_first = self.local.pages();
        let ghost refused_first = self.local.refused();
        let bundle = match self.bundle_pages(&page_table, page_size) {
            Ok(bundle) => bundle,
            Err(e) => {
                return Err(e);
            },
        };
        let ghost held = self.local.pages();
        let ghost published = self.network.published();
        let bundle_cid = match self.network.publish_page(bundle.as_slice()) {
            Ok(cid) => cid,
            Err(e) => {
                return Err(e);
            },
        };
        match self.local.update_root(bundle_cid) {
            Ok(()) => {},
            Err(e) => {
                return Err(e);
            },
        }
        match self.network.set_root(bundle_cid) {
            Ok(()) => {},
            Err(e) => {
                return Err(e);
            },
        }
        self.last_root = if new_root.is_null() { None } else { Some(new_root) };
        proof {
            lemma_bundle_of_grows(page_size, page_table@, held, self.local.pages(), bundle@);
            assert(self.local.pages().contains(table_page.data@));
            assert(committed_table(new_root, self.local.pages(), page_table@));
            lemma_first_page_size_grows(
                page_table@,
                held_first,
                refused_first,
                self.local.pages(),
                self.local.refused(),
                page_size,
            );
            assert(self.network.published() =~= published.insert(bundle@));
            assert(published == old(self).network.published());
        }
        Ok(())
    }

    /// The root that the network gives, else the one that the cache holds;
    /// a root that the network gives is copied to the cache. The answer is
    /// the network's root or the cache's; no root means that the cache has
    /// none.
    fn current_root(&mut self) -> (res: Result<Option<Cid>, PageStoreError>)
        ensures
            final(self).network.published() == old(self).network.published(),
            final(self).network.fetches() == old(self).network.fetches(),
            final(self).cache_kept(old(self)),
            final(self).network_kept(old(self)),
            final(self).stats == old(self).stats,
            res matches Ok(Some(cid)) ==> final(self).network.root() == Some(cid)
                || final(self).local.root() == Some(cid),
            res matches Ok(None) ==> final(self).local.root() is None,
            res is Err ==> final(self).last_root == old(self).last_root,
    {
        match self.resolve_root() {
            Ok(root) => {
                self.last_root = root;
                Ok(root)
            },
            Err(e) => Err(e),
        }
    }

    /// Saves the named root in the cache, then on the network: once both
    /// took it, the cache holds the identifier under the name. A network
    /// without roots of its own takes it and holds nothing.
    fn set_named_root(&mut self, name: &str, cid: Cid) -> (res: Result<(), PageStoreError>)
        ensures
            final(self).stats == old(self).stats,
            final(self).last_root == old(self).last_root,
            final(self).network.published() == old(self).network.published(),
            final(self).network.fetches() == old(self).network.fetches(),
            res is Ok ==> final(self).local.named().contains((name@, cid)),
    {
        match self.local.set_named_root(name, cid) {
            Ok(()) => {},
            Err(e) => {
                return Err(e);
            },
        }
        self.network.set_named_root(name, cid)
    }

    /// The named root that the network gives, else the one that the cache
    /// holds; one that the network gives is copied to the cache. What comes
    /// back is held under the name by the network or by the cache.
    fn get_named_root(&mut self, name: &str) -> (res: Result<Option<Cid>, PageStoreError>)
        ensures
            final(self).stats == old(self).stats,
            final(self).last_root == old(self).last_root,
            final(self).network.published() == old(self).network.published(),
            final(self).network.fetches() == old(self).network.fetches(),
            res matches Ok(Some(cid)) ==> final(self).network.named().contains((name@, cid))
                || final(self).local.named().contains((name@, cid)),
    {
        match named_by(self.network.get_named_root(name)) {
            Some(cid) => {
                let _ = self.local.set_named_root(name, cid);
                Ok(Some(cid))
            },
            None => self.local.get_named_root(name),
        }
    }

    /// Removes the named root from the cache and from the network; `true`
    /// if either had it, and then one of them did hold a root under the
    /// name. A side that fails counts as not having it, so the call itself
    /// never fails. Neither side holds afterwards what it did not hold
    /// before.
    fn remove_named_root(&mut self, name: &str) -> (res: Result<bool, PageStoreError>)
        ensures
            final(self).stats == old(self).stats,
            final(self).last_root == old(self).last_root,
            final(self).network.published() == old(self).network.published(),
            final(self).network.fetches() == old(self).network.fetches(),
            final(self).local.named().subset_of(old(self).local.named()),
            final(self).network.named().subset_of(old(self).network.named()),
            res is Ok,
            res matches Ok(true) ==> crate::store::held_under(old(self).local.named(), name@)
                || crate::store::held_under(old(self).network.named(), name@),
    {
        let local = self.local.remove_named_root(name);
        let network = self.network.remove_named_root(name);
        proof {
            if local matches Ok(true) {
                let cid = choose|cid: Cid|
                    #[trigger] old(self).local.named().contains((name@, cid));
                assert(old(self).named().contains((name@, cid)));
            }
            if network matches Ok(true) {
                let cid = choose|cid: Cid|
                    #[trigger] old(self).network.named().contains((name@, cid));
                assert(old(self).named().contains((name@, cid)));
            }
        }
        Ok(removed_from_either(local, network))
    }

    /// The named roots that the network lists, else those of the cache,
    /// else none: the call itself never fails. The roots listed are held
    /// by the network, all of them, or by the cache, all of them.
    fn list_named_roots(&mut self) -> (res: Result<Vec<(String, Cid)>, PageStoreError>)
        ensures
            final(self).stats == old(self).stats,
            final(self).last_root == old(self).last_root,
            final(self).network.published() == old(self).network.published(),
            final(self).network.fetches() == old(self).network.fetches(),
            res matches Ok(roots) && (crate::store::all_held(final(self).network.named(), roots@)
                || crate::store::all_held(final(self).local.named(), roots@)),
    {
        match self.network.list_named_roots() {
            Ok(roots) => {
                return Ok(roots);
            },
            Err(_) => {},
        }
        Ok(crate::store::listed_by(self.local.list_named_roots()))
    }

    open spec fn named(&self) -> Set<(Seq<char>, Cid)> {
        self.local.named().union(self.network.named())
    }

    open spec fn refused(&self) -> Set<Cid> {
        self.local.refused()
    }

    open spec fn declined(&self) -> Set<Seq<u8>> {
        self.local.declined()
    }
}

/// The page size of a bundle stays what the first page shows when the
/// cache takes in more pages and refuses more.
pub proof fn lemma_first_page_size_grows(
    table: Seq<Option<Cid>>,
    held: Set<Seq<u8>>,
    refused: Set<Cid>,
    more_held: Set<Seq<u8>>,
    more_refused: Set<Cid>,
    page_size: u32,
)
    requires
        held.subset_of(more_held),
        refused.subset_of(more_refused),
        first_page_size(table, held, refused, page_size),
    ensures
        first_page_size(table, more_held, more_refused, page_size),
{
    if let Some(first) = crate::page_table::entry_at(table, 0) {
        if !(refused.contains(first) && page_size == 4096) {
            let page = choose|page: Seq<u8>|
                #![trigger held.contains(page)]
                held.contains(page) && first == Cid::of(page) && page_size == page_size_shown(
                    page.len(),
                );
            assert(more_held.contains(page));
        }
    }
}

/// A bundle of what the cache holds stays one when the cache takes in more
/// pages.
pub proof fn lemma_bundle_of_grows(
    page_size: u32,
    table: Seq<Option<Cid>>,
    fewer: Set<Seq<u8>>,
    more: Set<Seq<u8>>,
    blob: Seq<u8>,
)
    requires
        fewer.subset_of(more),
        bundle_of(page_size, table, fewer, blob),
    ensures
        bundle_of(page_size, table, more, blob),
{
    let pages = choose|pages: Seq<Seq<u8>>|
        #[trigger] bundled_pages(table, fewer, pages, table.len() as int) && blob
            == crate::bundle::bundle_encoding(
            page_size,
            crate::page_table::raw_entries(table),
            pages,
        );
    assert(bundled_pages(table, more, pages, table.len() as int));
}

/// Whether every page that can stand in a bundle of the table, as the cache
/// holds it, has at most `page_size` bytes.
pub open spec fn pages_fit(table: Seq<Option<Cid>>, held: Set<Seq<u8>>, page_size: u32) -> bool {
    forall|i: int, page: Seq<u8>|
        0 <= i < table.len() && #[trigger] bundled_page(table[i], held, page) ==> page.len()
            <= page_size
}

/// The bundle of a table is fixed by the table and the page size: two
/// bundles of one table at one page size are the same bytes, whichever
/// caches gave the pages, as long as no two of their pages share a digest.
pub proof fn law_bundle_is_fixed_by_its_table(
    page_size: u32,
    table: Seq<Option<Cid>>,
    first: Set<Seq<u8>>,
    second: Set<Seq<u8>>,
    one: Seq<u8>,
    other: Seq<u8>,
)
    requires
        bundle_of(page_size, table, first, one),
        bundle_of(page_size, table, second, other),
        crate::store::digests_distinct(first.union(second)),
    ensures
        one == other,
{
    let raw = crate::page_table::raw_entries(table);
    let pages = choose|pages: Seq<Seq<u8>>|
        #[trigger] bundled_pages(table, first, pages, table.len() as int) && one
            == crate::bundle::bundle_encoding(page_size, raw, pages);
    let others = choose|pages: Seq<Seq<u8>>|
        #[trigger] bundled_pages(table, second, pages, table.len() as int) && other
            == crate::bundle::bundle_encoding(page_size, raw, pages);
    let both = first.union(second);
    assert forall|i: int| 0 <= i < table.len() implies pages[i] == others[i] by {
        assert(bundled_page(table[i], first, pages[i]));
        assert(bundled_page(table[i], second, others[i]));
        match table[i] {
            Some(cid) => {
                assert(both.contains(pages[i]) && both.contains(others[i]));
            },
            None => {
                assert(pages[i] =~= others[i]);
            },
        }
    }
    assert(pages =~= others);
}

/// Unbundling reads the table that was bundled: where a bundle of `table`
/// reads as a bundle with the table `read`, the two are the same table.
pub proof fn law_unbundling_reads_the_table(
    page_size: u32,
    table: Seq<Option<Cid>>,
    held: Set<Seq<u8>>,
    blob: Seq<u8>,
    read: Seq<Option<Cid>>,
)
    requires
        bundle_of(page_size, table, held, blob),
        pages_fit(table, held, page_size),
        crate::bundle::fits_bundle(crate::page_table::raw_entries(table)),
        blob.len() <= usize::MAX,
        crate::bundle::layout_of(blob) matches Ok(layout) && crate::page_table::table_decoding(
            crate::bundle::table_part(blob, layout),
        ) == Some(crate::page_table::raw_entries(read)),
    ensures
        read == table,
{
    let raw = crate::page_table::raw_entries(table);
    let pages = choose|pages: Seq<Seq<u8>>|
        #[trigger] bundled_pages(table, held, pages, table.len() as int) && blob
            == crate::bundle::bundle_encoding(page_size, raw, pages);
    crate::page_table::lemma_raw_entries_sized(table);
    assert forall|i: int| 0 <= i < pages.len() implies (#[trigger] pages[i]).len()
        <= page_size by {
        assert(bundled_page(table[i], held, pages[i]));
    }
    crate::bundle::law_bundle_round_trip(page_size, raw, pages);
    crate::page_table::lemma_raw_entries_injective(read, table);
}

/// Bundling what was unbundled gives the same bundle. A bundle of `table`
/// is unpacked into a second cache, where it reads as the table `read`;
/// then any bundle that the second cache gives for `read`, at the same page
/// size, is the first bundle byte for byte, as long as no two pages of the
/// two caches share a digest.
pub proof fn law_rebundling_gives_the_same_bundle(
    page_size: u32,
    table: Seq<Option<Cid>>,
    first: Set<Seq<u8>>,
    second: Set<Seq<u8>>,
    blob: Seq<u8>,
    read: Seq<Option<Cid>>,
    again: Seq<u8>,
)
    requires
        bundle_of(page_size, table, first, blob),
        pages_fit(table, first, page_size),
        crate::bundle::fits_bundle(crate::page_table::raw_entries(table)),
        blob.len() <= usize::MAX,
        crate::bundle::layout_of(blob) matches Ok(layout) && crate::page_table::table_decoding(
            crate::bundle::table_part(blob, layout),
        ) == Some(crate::page_table::raw_entries(read)),
        bundle_of(page_size, read, second, again),
        crate::store::digests_distinct(first.union(second)),
    ensures
        read == table,
        again == blob,
{
    law_unbundling_reads_the_table(page_size, table, first, blob, read);
    law_bundle_is_fixed_by_its_table(page_size, table, first, second, blob, again);
}

/// A commit publishes the bundle of the caller's table. The cache holds
/// the serialized table under the root that is committed, and every page
/// that the table names, as the cache holds it, has exactly 4096 bytes. As
/// long as no two pages of the cache share a digest, the blob that the
/// commit publishes has 14 bytes, the serialized table, 4 bytes and 4096
/// bytes for each slot of the table.
pub proof fn law_commit_publishes_the_bundle_of_the_table(
    new_root: Cid,
    table: Seq<Option<Cid>>,
    held: Set<Seq<u8>>,
    refused: Set<Cid>,
    blob: Seq<u8>,
)
    requires
        commits(new_root, held, refused, blob),
        crate::store::digests_distinct(held),
        held.contains(crate::page_table::table_encoding(crate::page_table::raw_entries(table))),
        new_root == Cid::of(
            crate::page_table::table_encoding(crate::page_table::raw_entries(table)),
        ),
        crate::bundle::fits_bundle(crate::page_table::raw_entries(table)),
        forall|i: int, page: Seq<u8>|
            0 <= i < table.len() && table[i] is Some && #[trigger] bundled_page(
                table[i],
                held,
                page,
            ) ==> page.len() == 4096,
        blob.len() <= usize::MAX,
    ensures
        bundle_of(4096, table, held, blob),
        blob.len() == 14 + crate::page_table::table_encoding(
            crate::page_table::raw_entries(table),
        ).len() + 4 + table.len() * 4096,
{
    let raw = crate::page_table::raw_entries(table);
    let bytes = crate::page_table::table_encoding(raw);
    let (committed, page_size) = choose|committed: Seq<Option<Cid>>, page_size: u32|
        {
            &&& #[trigger] bundle_of(page_size, committed, held, blob)
            &&& committed_table(new_root, held, committed)
            &&& first_page_size(committed, held, refused, page_size)
        };
    let table_page = choose|page: Seq<u8>|
        #![trigger held.contains(page)]
        held.contains(page) && new_root == Cid::of(page) && crate::page_table::table_decoding(page)
            == Some(crate::page_table::raw_entries(committed));
    assert(held.contains(table_page) && held.contains(bytes));
    assert(table_page == bytes);
    crate::page_table::law_table_round_trip(table, committed);
    assert(committed == table);
    if let Some(first) = crate::page_table::entry_at(table, 0) {
        if !(refused.contains(first) && page_size == 4096) {
            let page = choose|page: Seq<u8>|
                #![trigger held.contains(page)]
                held.contains(page) && first == Cid::of(page) && page_size == page_size_shown(
                    page.len(),
                );
            assert(bundled_page(table[0], held, page));
        }
    }
    assert(page_size == 4096);
    let pages = choose|pages: Seq<Seq<u8>>|
        #[trigger] bundled_pages(table, held, pages, table.len() as int) && blob
            == crate::bundle::bundle_encoding(page_size, raw, pages);
    crate::page_table::lemma_raw_entries_sized(table);
    assert forall|i: int| 0 <= i < pages.len() implies (#[trigger] pages[i]).len() <= 4096 by {
        assert(bundled_page(table[i], held, pages[i]));
    }
    crate::bundle::law_bundle_round_trip(page_size, raw, pages);
}

/// A cache into which a bundle was unpacked holds a page for every
/// identifier of the bundle's table. The bundle is one of `table`, made
/// from pages of exactly `page_size` bytes; `second` holds every block of
/// it, as it does once the bundle was unpacked.
pub proof fn law_unbundled_pages_are_held(
    page_size: u32,
    table: Seq<Option<Cid>>,
    first: Set<Seq<u8>>,
    blob: Seq<u8>,
    second: Set<Seq<u8>>,
)
    requires
        bundle_of(page_size, table, first, blob),
        crate::bundle::fits_bundle(crate::page_table::raw_entries(table)),
        blob.len() <= usize::MAX,
        forall|i: int, page: Seq<u8>|
            0 <= i < table.len() && table[i] is Some && #[trigger] bundled_page(
                table[i],
                first,
                page,
            ) ==> page.len() == page_size,
        crate::bundle::layout_of(blob) matches Ok(layout) && forall|i: int|
            0 <= i < layout.page_count ==> second.contains(
                #[trigger] crate::bundle::block_at(blob, layout, i),
            ),
    ensures
        forall|i: int|
            0 <= i < table.len() && (#[trigger] table[i]) is Some ==> crate::cached::held_locally(
                second,
                table[i]->0,
            ),
{
    let raw = crate::page_table::raw_entries(table);
    let pages = choose|pages: Seq<Seq<u8>>|
        #[trigger] bundled_pages(table, first, pages, table.len() as int) && blob
            == crate::bundle::bundle_encoding(page_size, raw, pages);
    crate::page_table::lemma_raw_entries_sized(table);
    assert forall|i: int| 0 <= i < pages.len() implies (#[trigger] pages[i]).len()
        <= page_size by {
        assert(bundled_page(table[i], first, pages[i]));
    }
    crate::bundle::law_bundle_round_trip(page_size, raw, pages);
    let layout = crate::bundle::layout_of(blob)->Ok_0;
    assert forall|i: int| 0 <= i < table.len() && (#[trigger] table[i]) is Some implies crate::cached::held_locally(
    second, table[i]->0) by {
        assert(bundled_page(table[i], first, pages[i]));
        assert(crate::bundle::block_at(blob, layout, i) == crate::bytes::padded(
            pages[i],
            page_size as nat,
        ));
        assert(second.contains(crate::bundle::block_at(blob, layout, i)));
        assert(second.contains(pages[i]));
    }
}

/// Whether two byte strings are equal.
fn same_bytes(a: &[u8], b: &[u8]) -> (r: bool)
    ensures
        r == (a@ == b@),
{
    if a.len() != b.len() {
        return false;
    }
    let mut i: usize = 0;
    while i < a.len()
        invariant
            i <= a@.len(),
            a@.len() == b@.len(),
            forall|k: int| 0 <= k < i ==> a@[k] == b@[k],
        decreases a@.len() - i,
    {
        if a[i] != b[i] {
            return false;
        }
        i += 1;
    }
    assert(a@ =~= b@);
    true
}

/// A network kept in memory, for tests: every blob published, the root,
/// the named roots in the order of their names, and how often blobs were
/// fetched and published.
#[derive(Debug)]
pub struct MockNetworkBackend {
    /// Every blob published, with its identifier, in the order of arrival.
    pub pages: Vec<(Cid, Vec<u8>)>,
    /// The root pointer.
    pub root: Option<Cid>,
    /// The named roots, their names ascending.
    pub named_roots: Vec<(String, Cid)>,
    /// How often a blob was asked for.
    pub fetch_count: u64,
    /// How often a blob was published.
    pub publish_count: u64,
}

impl MockNetworkBackend {
    /// Whether `blob` is among the blobs.
    pub open spec fn among(blobs: Seq<(Cid, Vec<u8>)>, blob: Seq<u8>) -> bool {
        exists|i: int| 0 <= i < blobs.len() && (#[trigger] blobs[i]).1@ == blob
    }

    /// Whether the backend holds `blob`.
    pub open spec fn holds(&self, blob: Seq<u8>) -> bool {
        Self::among(self.pages@, blob)
    }

    /// The first blob that the backend holds under an identifier.
    pub open spec fn first_under(blobs: Seq<(Cid, Vec<u8>)>, cid: Cid) -> Option<Seq<u8>>
        decreases blobs.len(),
    {
        if blobs.len() == 0 {
            None
        } else if blobs[0].0 == cid {
            Some(blobs[0].1@)
        } else {
            Self::first_under(blobs.drop_first(), cid)
        }
    }

    /// An empty network.
    pub fn new() -> (net: MockNetworkBackend)
        ensures
            net.wf(),
            net.pages@.len() == 0,
            net.root is None,
            net.named_roots@.len() == 0,
            net.fetch_count == 0,
            net.publish_count == 0,
    {
        MockNetworkBackend {
            pages: Vec::new(),
            root: None,
            named_roots: Vec::new(),
            fetch_count: 0,
            publish_count: 0,
        }
    }
}

impl Default for MockNetworkBackend {
    fn default() -> (net: MockNetworkBackend)
        ensures
            net.wf(),
            net.pages@.len() == 0,
    {
        MockNetworkBackend::new()
    }
}

impl NetworkBackend for MockNetworkBackend {
    open spec fn wf(&self) -> bool {
        &&& crate::names::names_ascend(self.named_roots@)
        &&& forall|i: int|
            0 <= i < self.pages@.len() ==> (#[trigger] self.pages@[i]).0 == Cid::of(
                self.pages@[i].1@,
            )
    }

    open spec fn published(&self) -> Set<Seq<u8>> {
        Set::new(|blob: Seq<u8>| Self::among(self.pages@, blob))
    }

    open spec fn named(&self) -> Set<(Seq<char>, Cid)> {
        Self::named_in(self.named_roots@)
    }

    open spec fn root(&self) -> Option<Cid> {
        self.root
    }

    open spec fn keeps_roots(&self) -> bool {
        true
    }

    open spec fn publishes(&self) -> u64 {
        self.publish_count
    }

    open spec fn fetches(&self) -> u64 {
        self.fetch_count
    }

    /// Keeps the blob, unless it is held already, and counts the call.
    fn publish_page(&mut self, data: &[u8]) -> (res: Result<Cid, PageStoreError>)
        ensures
            res is Ok,
            final(self).pages@ == if old(self).holds(data@) {
                old(self).pages@
            } else {
                old(self).pages@.push((Cid::of(data@), final(self).pages@.last().1))
            },
            !old(self).holds(data@) ==> final(self).pages@.last().1@ == data@,
            final(self).publish_count == crate::store::bumped(old(self).publish_count),
            final(self).fetch_count == old(self).fetch_count,
            final(self).root == old(self).root,
            final(self).named_roots == old(self).named_roots,
    {
        let cid = Cid::from_bytes(data);
        let mut found = false;
        let mut i: usize = 0;
        while i < self.pages.len() && !found
            invariant
                i <= self.pages@.len(),
                *self == *old(self),
                found ==> self.holds(data@),
                !found ==> forall|k: int| 0 <= k < i ==> (#[trigger] self.pages@[k]).1@ != data@,
            decreases self.pages@.len() - i + if found { 0int } else { 1int },
        {
            if same_bytes(self.pages[i].1.as_slice(), data) {
                found = true;
            } else {
                i += 1;
            }
        }
        let ghost before = self.pages@;
        if !found {
            self.pages.push((cid, copy_bytes(data)));
            proof {
                assert(self.pages@[before.len() as int].1@ == data@);
                assert(self.holds(data@));
                assert forall|blob: Seq<u8>| old(self).holds(blob) implies self.holds(blob) by {
                    let k = choose|k: int| 0 <= k < before.len() && (#[trigger] before[k]).1@ == blob;
                    assert(self.pages@[k] == before[k]);
                }
                assert forall|blob: Seq<u8>| self.holds(blob) implies old(self).holds(blob) || blob
                    == data@ by {
                    let k = choose|k: int|
                        0 <= k < self.pages@.len() && (#[trigger] self.pages@[k]).1@ == blob;
                    if k < before.len() {
                        assert(self.pages@[k] == before[k]);
                    }
                }
            }
        }
        self.publish_count = bump(self.publish_count);
        proof {
            if found {
                assert(self.published() =~= old(self).published());
            }
            assert(self.holds(data@));
            assert forall|blob: Seq<u8>| old(self).published().contains(blob) implies self.published().contains(
                blob,
            ) by {
                assert(old(self).holds(blob));
            }
            assert forall|blob: Seq<u8>| self.published().contains(blob) implies old(self).published().insert(data@).contains(blob) by {
                assert(self.holds(blob));
                if blob != data@ {
                    assert(old(self).holds(blob));
                }
            }
        }
        Ok(cid)
    }

    /// Counts the call and gives the first blob held under the identifier.
    fn fetch_page(&mut self, cid: &Cid) -> (res: Result<Vec<u8>, PageStoreError>)
        ensures
            final(self).fetch_count == crate::store::bumped(old(self).fetch_count),
            final(self).publish_count == old(self).publish_count,
            final(self).pages == old(self).pages,
            final(self).root == old(self).root,
            final(self).named_roots == old(self).named_roots,
            match res {
                Ok(data) => Self::first_under(old(self).pages@, *cid) == Some(data@) && *cid
                    == Cid::of(data@),
                Err(e) => Self::first_under(old(self).pages@, *cid) is None && e
                    == PageStoreError::NotFound(*cid),
            },
    {
        self.fetch_count = bump(self.fetch_count);
        assert(self.pages@.skip(0) == self.pages@);
        assert(self.published() =~= old(self).published());
        let mut i: usize = 0;
        while i < self.pages.len()
            invariant
                i <= self.pages@.len(),
                self.pages == old(self).pages,
                self.fetch_count == crate::store::bumped(old(self).fetch_count),
                self.publish_count == old(self).publish_count,
                self.root == old(self).root,
                self.named_roots == old(self).named_roots,
                self.published() == old(self).published(),
                self.wf(),
                Self::first_under(self.pages@, *cid) == Self::first_under(self.pages@.skip(i as int), *cid),
            decreases self.pages@.len() - i,
        {
            proof {
                let rest = self.pages@.skip(i as int);
                assert(rest[0] == self.pages@[i as int]);
                assert(rest.drop_first() == self.pages@.skip(i + 1));
            }
            if self.pages[i].0 == *cid {
                let data = copy_bytes(self.pages[i].1.as_slice());
                assert(self.holds(data@));
                return Ok(data);
            }
            i += 1;
        }
        Err(PageStoreError::NotFound(*cid))
    }

    fn get_root(&mut self) -> (res: Result<Option<Cid>, PageStoreError>)
        ensures
            res == Ok::<Option<Cid>, PageStoreError>(old(self).root),
            *final(self) == *old(self),
    {
        Ok(self.root)
    }

    fn set_root(&mut self, cid: Cid) -> (res: Result<(), PageStoreError>)
        ensures
            res is Ok,
            final(self).root == Some(cid),
            final(self).pages == old(self).pages,
            final(self).named_roots == old(self).named_roots,
            final(self).fetch_count == old(self).fetch_count,
            final(self).publish_count == old(self).publish_count,
    {
        self.root = Some(cid);
        assert(self.published() =~= old(self).published());
        Ok(())
    }

    fn get_named_root(&mut self, name: &str) -> (res: Result<Option<Cid>, PageStoreError>)
        ensures
            res == Ok::<Option<Cid>, PageStoreError>(
                crate::names::named_lookup(old(self).named_roots@, name@),
            ),
            *final(self) == *old(self),
    {
        Ok(crate::names::lookup_named(&self.named_roots, name))
    }

    fn set_named_root(&mut self, name: &str, cid: Cid) -> (res: Result<(), PageStoreError>)
        ensures
            res is Ok,
            final(self).pages == old(self).pages,
            final(self).root == old(self).root,
            final(self).fetch_count == old(self).fetch_count,
            final(self).publish_count == old(self).publish_count,
            forall|other: Seq<char>|
                #![trigger crate::names::named_lookup(final(self).named_roots@, other)]
                crate::names::named_lookup(final(self).named_roots@, other) == if other == name@ {
                    Some(cid)
                } else {
                    crate::names::named_lookup(old(self).named_roots@, other)
                },
    {
        crate::names::insert_named(&mut self.named_roots, owned(name), cid);
        assert(self.published() =~= old(self).published());
        Ok(())
    }

    fn remove_named_root(&mut self, name: &str) -> (res: Result<bool, PageStoreError>)
        ensures
            res == Ok::<bool, PageStoreError>(
                crate::names::named_lookup(old(self).named_roots@, name@) is Some,
            ),
            final(self).pages == old(self).pages,
            final(self).root == old(self).root,
            final(self).fetch_count == old(self).fetch_count,
            final(self).publish_count == old(self).publish_count,
            forall|other: Seq<char>|
                #![trigger crate::names::named_lookup(final(self).named_roots@, other)]
                crate::names::named_lookup(final(self).named_roots@, other) == if other == name@ {
                    None
                } else {
                    crate::names::named_lookup(old(self).named_roots@, other)
                },
    {
        let removed = crate::names::remove_named(&mut self.named_roots, name);
        proof {
            assert(self.published() =~= old(self).published());
            if removed {
                let cid = crate::names::named_lookup(old(self).named_roots@, name@)->0;
                assert(old(self).named().contains((name@, cid)));
            }
        }
        Ok(removed)
    }

    fn list_named_roots(&mut self) -> (res: Result<Vec<(String, Cid)>, PageStoreError>)
        ensures
            res matches Ok(roots) && roots@ == old(self).named_roots@,
            *final(self) == *old(self),
    {
        let roots = crate::names::copy_named(&self.named_roots);
        proof {
            assert forall|i: int| 0 <= i < roots@.len() implies self.named().contains(
                ((#[trigger] roots@[i]).0@, roots@[i].1),
            ) by {
                crate::names::lemma_lookup_finds(roots@, i);
            }
        }
        Ok(roots)
    }
}

impl MockNetworkBackend {
    /// The named roots of a list: each name with what the list gives for
    /// it.
    pub open spec fn named_in(roots: Seq<(String, Cid)>) -> Set<(Seq<char>, Cid)> {
        Set::new(|root: (Seq<char>, Cid)| crate::names::named_lookup(roots, root.0) == Some(root.1))
    }
}

} // verus!
