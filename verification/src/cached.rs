//! A page store that pairs a local store with a remote one: reads go
//! through the local store, writes go to both, and the root is kept in
//! memory for a time before the remote is asked again.

use vstd::prelude::*;
use crate::cid::Cid;
use crate::cid::Page;
use crate::cid::PageStoreError;
use crate::names::merge_named;
use crate::page_table::PageTable;
use crate::store::PageStore;
use crate::store::bump;
use crate::store::named_by;
use crate::text::joined;

verus! {

/// How a caching store behaves.
#[derive(Debug, Clone, Copy)]
pub struct CacheConfig {
    /// How long a fetched root stays fresh, in nanoseconds; `None` keeps it
    /// until it is refreshed by hand.
    pub root_ttl: Option<u64>,
    /// Whether all pages are fetched when the store is made.
    pub prefetch_on_open: bool,
    /// Most pages that one prefetch takes; 0 for no bound.
    pub max_prefetch_pages: usize,
}

impl Default for CacheConfig {
    fn default() -> (config: CacheConfig)
        ensures
            config.root_ttl == Some(300_000_000_000u64),
            !config.prefetch_on_open,
            config.max_prefetch_pages == 0,
    {
        CacheConfig {
            root_ttl: Some(300_000_000_000),
            prefetch_on_open: false,
            max_prefetch_pages: 0,
        }
    }
}

/// The root as last fetched, and when.
#[derive(Debug, Clone, Copy)]
pub struct RootCache {
    pub root: Option<Cid>,
    /// The clock's reading when the root was fetched, in nanoseconds.
    pub fetched_at: Option<u64>,
}

impl RootCache {
    /// Whether the cached root still answers at the time `now`: there is
    /// one, and less than the time to live has passed since it was
    /// fetched, or no time to live is set.
    pub open spec fn is_fresh(&self, ttl: Option<u64>, now: u64) -> bool {
        &&& self.root is Some
        &&& self.fetched_at is Some
        &&& match ttl {
            Some(ttl) => (if now >= self.fetched_at->0 {
                now - self.fetched_at->0
            } else {
                0
            }) < ttl,
            None => true,
        }
    }

    /// Whether the cached root still answers at the time `now`.
    pub fn fresh(&self, ttl: Option<u64>, now: u64) -> (r: bool)
        ensures
            r == self.is_fresh(ttl, now),
    {
        match (self.root, self.fetched_at) {
            (Some(_), Some(fetched_at)) => match ttl {
                Some(ttl) => now.saturating_sub(fetched_at) < ttl,
                None => true,
            },
            _ => false,
        }
    }
}

/// Counters of a caching store.
#[derive(Debug)]
pub struct CacheStats {
    pub cached_pages: usize,
    /// Reads that the local store served.
    pub cache_hits: u64,
    /// Reads that the local store did not have.
    pub cache_misses: u64,
}

impl CacheStats {
    /// Counters at zero.
    pub fn new() -> (stats: CacheStats)
        ensures
            stats.cached_pages == 0,
            stats.cache_hits == 0,
            stats.cache_misses == 0,
    {
        CacheStats { cached_pages: 0, cache_hits: 0, cache_misses: 0 }
    }
}

/// A monotonic clock, standing at zero when it is made.
#[verifier::external_type_specification]
#[verifier::external_body]
pub struct ExInstant(std::time::Instant);

/// The clock of a store.
#[derive(Debug, Clone, Copy)]
pub struct Clock {
    pub epoch: std::time::Instant,
}

/// `std::time::Instant::now`: the present moment.
#[verifier::external_body]
fn instant_now() -> std::time::Instant {
    std::time::Instant::now()
}

/// `std::time::Instant::elapsed`: the time since the given moment.
#[verifier::external_body]
fn elapsed_since(epoch: &std::time::Instant) -> std::time::Duration {
    epoch.elapsed()
}

/// `std::time::Duration::as_nanos`: the duration in whole nanoseconds.
#[verifier::external_body]
fn whole_nanos(duration: &std::time::Duration) -> u128 {
    duration.as_nanos()
}

impl Clock {
    /// A clock that starts now.
    pub fn start() -> Clock {
        Clock { epoch: instant_now() }
    }

    /// The nanoseconds since the clock started; the largest number once
    /// they no longer fit.
    pub fn now(&self) -> u64 {
        let nanos = whole_nanos(&elapsed_since(&self.epoch));
        if nanos > 0xffff_ffff_ffff_ffff {
            u64::MAX
        } else {
            nanos as u64
        }
    }
}

/// What the answer of the local store means for a read: the page, if it
/// has it; nothing, if it reports the page as not found, and then the
/// remote is asked; and its error, if it fails in any other way, and then
/// the read fails and nothing is written.
pub fn after_local(answer: Result<Page, PageStoreError>) -> (res: Result<
    Option<Page>,
    PageStoreError,
>)
    ensures
        res == match answer {
            Ok(page) => Ok::<Option<Page>, PageStoreError>(Some(page)),
            Err(PageStoreError::NotFound(_)) => Ok(None),
            Err(e) => Err(e),
        },
{
    match answer {
        Ok(page) => Ok(Some(page)),
        Err(PageStoreError::NotFound(_)) => Ok(None),
        Err(e) => Err(e),
    }
}

/// What a prefetch does with one identifier.
#[derive(Debug, Clone, Copy, PartialEq, Eq, Structural)]
pub enum Prefetched {
    /// The page was copied into the local store and counts.
    Counted,
    /// The page was not copied and does not count.
    Skipped,
}

/// The page to copy into the local store, from what the remote answered
/// for the identifier: the page that it gave, if its digest is the
/// identifier. An error, or a page with another digest, gives none.
pub fn page_to_copy(cid: &Cid, answer: Result<Page, PageStoreError>) -> (page: Option<Page>)
    ensures
        match answer {
            Ok(given) => if *cid == Cid::of(given.data@) {
                page matches Some(p) && p.data == given.data
            } else {
                page is None
            },
            Err(_) => page is None,
        },
{
    match answer {
        Ok(given) => match crate::objstore::check_fetched(cid, given.data) {
            Ok(page) => Some(page),
            Err(_) => None,
        },
        Err(_) => None,
    }
}

/// What a prefetch makes of one identifier, from what the local store
/// answered when it was handed the page: counted, if it took the page;
/// its error, if it did not; skipped, if there was no page to hand over,
/// because the local store had it or the remote gave none.
pub fn prefetch_outcome(copy: Option<Result<Cid, PageStoreError>>) -> (res: Result<
    Prefetched,
    PageStoreError,
>)
    ensures
        res == match copy {
            Some(Ok(_)) => Ok::<Prefetched, PageStoreError>(Prefetched::Counted),
            Some(Err(e)) => Err(e),
            None => Ok(Prefetched::Skipped),
        },
{
    match copy {
        Some(Ok(_)) => Ok(Prefetched::Counted),
        Some(Err(e)) => Err(e),
        None => Ok(Prefetched::Skipped),
    }
}

/// The pages to ask the remote for, from the table and what the local
/// store answered for its entries, one answer for each slot that was
/// looked at: the entries, in page order, that the local store did not
/// serve.
pub fn unserved(table: &PageTable, served: &Vec<bool>) -> (wanted: Vec<Cid>)
    requires
        served@.len() <= table@.len(),
    ensures
        wanted@ == unserved_upto(table@, served@, served@.len()),
{
    let mut wanted: Vec<Cid> = Vec::new();
    let mut i: usize = 0;
    while i < served.len()
        invariant
            i <= served@.len(),
            served@.len() <= table@.len(),
            wanted@ == unserved_upto(table@, served@, i as nat),
        decreases served@.len() - i,
    {
        if let Some(cid) = table.entry(i) {
            if !served[i] {
                wanted.push(cid);
            }
        }
        i += 1;
    }
    wanted
}

/// Whether a named root was removed, from what the two stores answered
/// once both had succeeded: `true` if either had it.
pub fn removed_by_either(local_removed: bool, remote_removed: bool) -> (removed: bool)
    ensures
        removed == (local_removed || remote_removed),
{
    local_removed || remote_removed
}

/// Store that wraps a remote store with a local one as its cache.
pub struct CachingPageStore<L: PageStore, R: PageStore> {
    /// The local store, which lasts across restarts.
    pub local: L,
    /// The remote store.
    pub remote: R,
    /// The root as last fetched.
    pub root_cache: RootCache,
    pub config: CacheConfig,
    pub stats: CacheStats,
    pub clock: Clock,
}

impl<L: PageStore, R: PageStore> CachingPageStore<L, R> {
    /// The store's invariant: those of its two stores, and a cached root is
    /// never the null identifier.
    pub open spec fn inv(&self) -> bool {
        &&& self.local.wf()
        &&& self.remote.wf()
        &&& self.root_cache.root matches Some(cid) ==> !cid.spec_is_null()
    }

    /// Whether only the two stores of `self` differ from those of `before`,
    /// and each of them only by pages taken in.
    pub open spec fn grew_from(&self, before: &Self) -> bool {
        &&& before.local.pages().subset_of(self.local.pages())
        &&& before.remote.pages().subset_of(self.remote.pages())
        &&& crate::store::nothing_lost(&before.local, &self.local)
        &&& crate::store::nothing_lost(&before.remote, &self.remote)
        &&& self.config == before.config
        &&& self.clock == before.clock
    }

    /// Whether both stores hold the named roots that they held in
    /// `before`.
    pub open spec fn names_kept(&self, before: &Self) -> bool {
        &&& self.local.named() == before.local.named()
        &&& self.remote.named() == before.remote.named()
    }

    /// A store over a local and a remote store, with nothing cached. Where
    /// the configuration asks for it, the pages of the remote's current
    /// table are fetched at once; a failure of that is ignored.
    pub fn new(local: L, remote: R, config: CacheConfig) -> (store: Self)
        requires
            local.wf(),
            remote.wf(),
        ensures
            store.inv(),
            store.config == config,
            store.root_cache.root is None,
            store.root_cache.fetched_at is None,
            store.stats.cache_hits == 0,
            store.stats.cache_misses == 0,
            local.pages().subset_of(store.local.pages()),
            remote.pages().subset_of(store.remote.pages()),
            !config.prefetch_on_open ==> store.local == local && store.remote == remote,
    {
        let mut store = CachingPageStore {
            local,
            remote,
            root_cache: RootCache { root: None, fetched_at: None },
            config,
            stats: CacheStats::new(),
            clock: Clock::start(),
        };
        if store.config.prefetch_on_open {
            let _ = store.prefetch();
        }
        store
    }

    /// Asks the remote for its root at the time `now`, keeps the answer in
    /// memory and, if there is a root, makes it the local store's root.
    pub fn refresh_root_at(&mut self, now: u64) -> (res: Result<Option<Cid>, PageStoreError>)
        requires
            old(self).inv(),
        ensures
            final(self).inv(),
            final(self).grew_from(old(self)),
            final(self).names_kept(old(self)),
            final(self).remote.accepted() == old(self).remote.accepted(),
            final(self).stats == old(self).stats,
            res matches Ok(root) ==> {
                &&& final(self).root_cache.root == root
                &&& final(self).root_cache.fetched_at == Some(now)
                &&& final(self).remote.root() == root
            },
            res matches Ok(Some(cid)) ==> final(self).local.root() == Some(cid),
            res is Err ==> final(self).root_cache == old(self).root_cache || {
                &&& final(self).root_cache.fetched_at == Some(now)
                &&& final(self).root_cache.root == final(self).remote.root()
            },
    {
        let remote_root = match self.remote.current_root() {
            Ok(root) => root,
            Err(e) => {
                return Err(e);
            },
        };
        self.root_cache.root = remote_root;
        self.root_cache.fetched_at = Some(now);
        if let Some(cid) = remote_root {
            match self.local.update_root(cid) {
                Ok(()) => {},
                Err(e) => {
                    return Err(e);
                },
            }
        }
        Ok(remote_root)
    }

    /// Asks the remote for its root now, whatever is cached, keeps the
    /// answer in memory as fetched now and, if there is a root, makes it
    /// the local store's root.
    pub fn refresh_root(&mut self) -> (res: Result<Option<Cid>, PageStoreError>)
        requires
            old(self).inv(),
        ensures
            final(self).inv(),
            final(self).grew_from(old(self)),
            final(self).names_kept(old(self)),
            final(self).remote.accepted() == old(self).remote.accepted(),
            final(self).stats == old(self).stats,
            res matches Ok(root) ==> {
                &&& final(self).root_cache.root == root
                &&& final(self).root_cache.fetched_at is Some
                &&& final(self).remote.root() == root
            },
            res matches Ok(Some(cid)) ==> final(self).local.root() == Some(cid),
    {
        let now = self.clock.now();
        self.refresh_root_at(now)
    }

    /// The root at the time `now`: the cached one while it is fresh, and
    /// then neither store is asked; else the remote's, fetched anew.
    pub fn current_root_at(&mut self, now: u64) -> (res: Result<Option<Cid>, PageStoreError>)
        requires
            old(self).inv(),
        ensures
            final(self).inv(),
            final(self).grew_from(old(self)),
            final(self).names_kept(old(self)),
            final(self).remote.accepted() == old(self).remote.accepted(),
            final(self).stats == old(self).stats,
            old(self).root_cache.is_fresh(old(self).config.root_ttl, now) ==> res == Ok::<
                Option<Cid>,
                PageStoreError,
            >(old(self).root_cache.root) && *final(self) == *old(self),
            res matches Ok(root) ==> final(self).root_cache.root == root,
            !old(self).root_cache.is_fresh(old(self).config.root_ttl, now) ==> (res matches Ok(
                root,
            ) ==> {
                &&& final(self).root_cache.fetched_at == Some(now)
                &&& final(self).remote.root() == root
                &&& root matches Some(cid) ==> final(self).local.root() == Some(cid)
            }),
    {
        if self.root_cache.fresh(self.config.root_ttl, now) {
            return Ok(self.root_cache.root);
        }
        self.refresh_root_at(now)
    }

    /// Makes `new_root` the root of both stores at the time `now`, and
    /// keeps it in memory as fetched then.
    pub fn update_root_at(&mut self, new_root: Cid, now: u64) -> (res: Result<(), PageStoreError>)
        requires
            old(self).inv(),
        ensures
            final(self).inv(),
            final(self).grew_from(old(self)),
            final(self).names_kept(old(self)),
            final(self).remote.accepted() == old(self).remote.accepted(),
            final(self).stats == old(self).stats,
            res is Ok ==> {
                &&& final(self).root_cache.root == crate::store::root_value(new_root)
                &&& final(self).root_cache.fetched_at == Some(now)
                &&& final(self).local.root() == crate::store::root_value(new_root)
                &&& final(self).remote.root() == crate::store::root_value(new_root)
            },
            res is Err ==> final(self).root_cache == old(self).root_cache,
    {
        match self.local.update_root(new_root) {
            Ok(()) => {},
            Err(e) => {
                return Err(e);
            },
        }
        match self.remote.update_root(new_root) {
            Ok(()) => {},
            Err(e) => {
                return Err(e);
            },
        }
        self.root_cache.root = if new_root.is_null() { None } else { Some(new_root) };
        self.root_cache.fetched_at = Some(now);
        Ok(())
    }

    /// Whether the local store can serve a page.
    pub fn is_cached(&mut self, cid: &Cid) -> (cached: bool)
        requires
            old(self).inv(),
        ensures
            final(self).inv(),
            final(self).grew_from(old(self)),
            final(self).names_kept(old(self)),
            final(self).remote.accepted() == old(self).remote.accepted(),
            final(self).remote == old(self).remote,
            final(self).stats == old(self).stats,
            final(self).root_cache == old(self).root_cache,
            cached ==> exists|page: Seq<u8>|
                #![trigger final(self).local.pages().contains(page)]
                final(self).local.pages().contains(page) && *cid == Cid::of(page),
            !cached ==> final(self).local.refused().contains(*cid),
            final(self).local.accepted() == old(self).local.accepted(),
    {
        match self.local.get(cid) {
            Ok(page) => {
                assert(self.local.pages().contains(page.data@));
                true
            },
            Err(_) => false,
        }
    }

    /// The counters.
    pub fn stats(&self) -> (stats: &CacheStats)
        ensures
            *stats == self.stats,
    {
        &self.stats
    }

    /// Fetches the given pages from the remote into the local store,
    /// skipping those that the local store has and those that the remote
    /// cannot give. Afterwards each of the identifiers has a page in the
    /// local store, or the remote refused it. Returns how many were
    /// fetched: the local store has stored exactly that many pages more,
    /// and that many of the identifiers, at ascending places, were refused
    /// by the local store and each have a page that both stores now hold.
    /// Only the local store can make
    /// the call fail, when it does not take a page that the remote gave;
    /// with no identifier given the answer is 0 and nothing is asked.
    pub fn prefetch_cids(&mut self, cids: &[Cid]) -> (res: Result<usize, PageStoreError>)
        requires
            old(self).inv(),
        ensures
            final(self).inv(),
            final(self).grew_from(old(self)),
            final(self).names_kept(old(self)),
            final(self).remote.accepted() == old(self).remote.accepted(),
            final(self).stats == old(self).stats,
            final(self).root_cache == old(self).root_cache,
            final(self).remote.root() == old(self).remote.root(),
            res matches Ok(fetched) ==> {
                &&& fetched <= cids@.len()
                &&& final(self).local.accepted() == old(self).local.accepted() + fetched
                &&& settled(cids@, final(self).local.pages(), final(self).remote.refused())
                &&& exists|taken: Seq<int>|
                    taken.len() == fetched && #[trigger] copied(
                        cids@,
                        taken,
                        final(self).local.pages(),
                        final(self).remote.pages(),
                    ) && missed(cids@, taken, final(self).local.refused())
            },
            cids@.len() == 0 ==> res == Ok::<usize, PageStoreError>(0) && *final(self) == *old(
                self,
            ),
    {
        let mut fetched: usize = 0;
        let mut i: usize = 0;
        let ghost mut taken: Seq<int> = Seq::empty();
        while i < cids.len()
            invariant
                i <= cids@.len(),
                fetched <= i,
                self.local.accepted() == old(self).local.accepted() + fetched,
                self.inv(),
                self.grew_from(old(self)),
                self.names_kept(old(self)),
                self.remote.accepted() == old(self).remote.accepted(),
                self.stats == old(self).stats,
                self.root_cache == old(self).root_cache,
                self.remote.root() == old(self).remote.root(),
                i == 0 ==> *self == *old(self),
                taken.len() == fetched,
                forall|k: int| 0 <= k < taken.len() ==> #[trigger] taken[k] < i,
                copied(cids@, taken, self.local.pages(), self.remote.pages()),
                missed(cids@, taken, self.local.refused()),
                settled(cids@.subrange(0, i as int), self.local.pages(), self.remote.refused()),
            decreases cids@.len() - i,
        {
            let ghost local_before = self.local.pages();
            let ghost remote_before = self.remote.pages();
            let ghost refused_before = self.remote.refused();
            let ghost taken_before = taken;
            let cid = cids[i];
            let copy = if self.is_cached(&cid) {
                None
            } else {
                let answer = self.remote.get(&cid);
                match page_to_copy(&cid, answer) {
                    Some(page) => {
                        let taken_in = self.local.put(&page);
                        proof {
                            if taken_in is Ok {
                                assert(self.local.pages().contains(page.data@));
                                assert(self.remote.pages().contains(page.data@));
                                assert(held_by_both(
                                    cid,
                                    self.local.pages(),
                                    self.remote.pages(),
                                ));
                            }
                        }
                        Some(taken_in)
                    },
                    None => None,
                }
            };
            let ghost was_copied = copy matches Some(Ok(_));
            match prefetch_outcome(copy) {
                Ok(Prefetched::Counted) => {
                    fetched += 1;
                    proof {
                        taken = taken_before.push(i as int);
                    }
                },
                Ok(Prefetched::Skipped) => {},
                Err(e) => {
                    return Err(e);
                },
            }
            proof {
                assert(local_before.subset_of(self.local.pages()));
                assert(remote_before.subset_of(self.remote.pages()));
                assert(refused_before.subset_of(self.remote.refused()));
                assert forall|k: int| 0 <= k < taken.len() implies held_by_both(
                    cids@[#[trigger] taken[k]],
                    self.local.pages(),
                    self.remote.pages(),
                ) by {
                    if k < taken_before.len() {
                        assert(taken[k] == taken_before[k]);
                        lemma_held_by_both_grows(
                            cids@[taken[k]],
                            local_before,
                            remote_before,
                            self.local.pages(),
                            self.remote.pages(),
                        );
                    }
                }
                let done = cids@.subrange(0, i + 1);
                assert forall|k: int| 0 <= k < done.len() implies held_locally(
                    self.local.pages(),
                    #[trigger] done[k],
                ) || self.remote.refused().contains(done[k]) by {
                    if k < i {
                        assert(cids@.subrange(0, i as int)[k] == done[k]);
                        if held_locally(local_before, done[k]) {
                            lemma_held_locally_grows(done[k], local_before, self.local.pages());
                        }
                    } else {
                        assert(done[k] == cid);
                        if was_copied {
                            assert(held_by_both(cid, self.local.pages(), self.remote.pages()));
                            let page = choose|page: Seq<u8>|
                                #![trigger self.local.pages().contains(page)]
                                self.local.pages().contains(page) && self.remote.pages().contains(
                                    page,
                                ) && cid == Cid::of(page);
                            assert(self.local.pages().contains(page));
                        }
                    }
                }
            }
            i += 1;
        }
        assert(cids@.subrange(0, cids@.len() as int) == cids@);
        Ok(fetched)
    }

    /// Fetches the pages of the remote's current table into the local
    /// store: the table itself, then each page of it that the local store
    /// does not serve, in page order, up to the configured bound. Returns
    /// how many pages were fetched, the table not counted: the local store
    /// has stored the table and exactly that many pages more. Where the
    /// remote has no root the answer is 0 and the local store has stored
    /// nothing.
    pub fn prefetch(&mut self) -> (res: Result<usize, PageStoreError>)
        requires
            old(self).inv(),
        ensures
            final(self).inv(),
            final(self).grew_from(old(self)),
            final(self).names_kept(old(self)),
            final(self).remote.accepted() == old(self).remote.accepted(),
            final(self).stats == old(self).stats,
            final(self).root_cache == old(self).root_cache,
            res matches Ok(fetched) ==> match final(self).remote.root() {
                None => fetched == 0 && final(self).local.accepted() == old(self).local.accepted(),
                Some(root) => final(self).local.accepted() == old(self).local.accepted() + 1
                    + fetched && prefetched(
                    root,
                    old(self).config.max_prefetch_pages,
                    final(self).local.pages(),
                    final(self).local.refused(),
                    final(self).remote.pages(),
                    final(self).remote.refused(),
                    fetched,
                ),
            },
    {
        let root_cid = match self.remote.current_root() {
            Ok(Some(cid)) => cid,
            Ok(None) => {
                return Ok(0);
            },
            Err(e) => {
                return Err(e);
            },
        };
        let table_page = match self.remote.get(&root_cid) {
            Ok(page) => page,
            Err(e) => {
                return Err(e);
            },
        };
        let page_table = match PageTable::from_bytes(table_page.data.as_slice()) {
            Ok(table) => table,
            Err(e) => {
                return Err(
                    PageStoreError::Storage(
                        joined(
                            "Failed to parse page table: ",
                            crate::page_table::bincode_error_text(&e).as_str(),
                        ),
                    ),
                );
            },
        };
        match self.local.put(&table_page) {
            Ok(_) => {},
            Err(e) => {
                return Err(e);
            },
        }
        let max = self.config.max_prefetch_pages;
        let mut served: Vec<bool> = Vec::new();
        let mut pending: usize = 0;
        let mut i: usize = 0;
        while i < page_table.len() && !(max > 0 && pending >= max)
            invariant
                i <= page_table@.len(),
                served@.len() == i,
                max == old(self).config.max_prefetch_pages,
                pending == unserved_upto(page_table@, served@, i as nat).len(),
                max > 0 ==> pending <= max,
                pending <= i,
                self.inv(),
                self.grew_from(old(self)),
                self.names_kept(old(self)),
                self.remote.accepted() == old(self).remote.accepted(),
                self.stats == old(self).stats,
                self.root_cache == old(self).root_cache,
                self.remote.root() == Some(root_cid),
                self.local.accepted() == old(self).local.accepted() + 1,
                self.local.pages().contains(table_page.data@),
                self.remote.pages().contains(table_page.data@),
                answers_of(page_table@, served@, self.local.pages(), self.local.refused()),
            decreases page_table@.len() - i,
        {
            let ghost served_before = served@;
            let ghost pages_before = self.local.pages();
            let ghost refused_before = self.local.refused();
            let cached = match page_table.entry(i) {
                Some(cid) => self.is_cached(&cid),
                None => true,
            };
            served.push(cached);
            if !cached {
                pending += 1;
            }
            proof {
                assert(pages_before.subset_of(self.local.pages()));
                assert(refused_before.subset_of(self.local.refused()));
                lemma_unserved_prefix(page_table@, served_before, served@, i as nat);
                lemma_answers_grow(
                    page_table@,
                    served_before,
                    pages_before,
                    refused_before,
                    self.local.pages(),
                    self.local.refused(),
                );
                assert forall|k: int| 0 <= k < served@.len() implies answered(
                    page_table@,
                    k,
                    #[trigger] served@[k],
                    self.local.pages(),
                    self.local.refused(),
                ) by {
                    if k < i {
                        assert(served@[k] == served_before[k]);
                    }
                }
            }
            i += 1;
        }
        let wanted = unserved(&page_table, &served);
        let ghost pages_asked = self.local.pages();
        let ghost refused_asked = self.local.refused();
        let res = self.prefetch_cids(wanted.as_slice());
        proof {
            if res is Ok {
                assert(pages_asked.subset_of(self.local.pages()));
                assert(refused_asked.subset_of(self.local.refused()));
                assert(self.local.pages().contains(table_page.data@));
                assert(self.remote.pages().contains(table_page.data@));
                assert(table_of(
                    root_cid,
                    self.local.pages(),
                    self.remote.pages(),
                    page_table@,
                ));
                lemma_answers_grow(
                    page_table@,
                    served@,
                    pages_asked,
                    refused_asked,
                    self.local.pages(),
                    self.local.refused(),
                );
                let taken = choose|taken: Seq<int>|
                    taken.len() == res->Ok_0 && #[trigger] copied(
                        wanted@,
                        taken,
                        self.local.pages(),
                        self.remote.pages(),
                    );
                assert(selection(page_table@, served@, max) && copied(
                    unserved_upto(page_table@, served@, served@.len()),
                    taken,
                    self.local.pages(),
                    self.remote.pages(),
                ));
            }
        }
        res
    }
}

impl<L: PageStore, R: PageStore> PageStore for CachingPageStore<L, R> {
    open spec fn wf(&self) -> bool {
        self.inv()
    }

    open spec fn pages(&self) -> Set<Seq<u8>> {
        self.local.pages().union(self.remote.pages())
    }

    open spec fn root(&self) -> Option<Cid> {
        self.root_cache.root
    }

    open spec fn named(&self) -> Set<(Seq<char>, Cid)> {
        self.local.named().union(self.remote.named())
    }

    open spec fn refused(&self) -> Set<Cid> {
        self.local.refused()
    }

    open spec fn declined(&self) -> Set<Seq<u8>> {
        self.local.declined().union(self.remote.declined())
    }

    open spec fn accepted(&self) -> nat {
        self.remote.accepted()
    }

    /// Serves the page from the local store, which counts as a hit. Where
    /// the local store does not have it, a miss is counted, the remote is
    /// asked, what it gives is checked against the identifier and copied
    /// into the local store, and the page is returned whether or not the
    /// local store took the copy. Any other failure of the local store is
    /// returned as it is, and nothing is written.
    fn get(&mut self, cid: &Cid) -> (res: Result<Page, PageStoreError>)
        ensures
            final(self).grew_from(old(self)),
            final(self).names_kept(old(self)),
            final(self).root_cache == old(self).root_cache,
            final(self).stats.cached_pages == old(self).stats.cached_pages,
            ({
                &&& final(self).stats.cache_hits == crate::store::bumped(old(self).stats.cache_hits)
                &&& final(self).stats.cache_misses == old(self).stats.cache_misses
                &&& final(self).remote == old(self).remote
                &&& res matches Ok(page) && final(self).local.pages().contains(page.data@)
            }) || ({
                &&& final(self).stats.cache_hits == old(self).stats.cache_hits
                &&& final(self).stats.cache_misses == crate::store::bumped(
                    old(self).stats.cache_misses,
                )
                &&& final(self).local.refused().contains(*cid)
                &&& res matches Ok(page) ==> final(self).remote.pages().contains(page.data@)
                    && (final(self).local.pages().contains(page.data@)
                    || final(self).local.declined().contains(page.data@))
                &&& res is Err ==> final(self).remote.refused().contains(*cid) || res->Err_0
                    is Storage
            }) || ({
                &&& final(self).stats == old(self).stats
                &&& final(self).remote == old(self).remote
                &&& res matches Err(e)
                &&& !(e is NotFound)
            }),
    {
        match after_local(self.local.get(cid)) {
            Ok(Some(page)) => {
                self.stats.cache_hits = bump(self.stats.cache_hits);
                return Ok(page);
            },
            Ok(None) => {
                self.stats.cache_misses = bump(self.stats.cache_misses);
            },
            Err(e) => {
                return Err(e);
            },
        }
        let fetched = match self.remote.get(cid) {
            Ok(page) => page,
            Err(e) => {
                return Err(e);
            },
        };
        let page = match crate::objstore::check_fetched(cid, fetched.data) {
            Ok(page) => page,
            Err(e) => {
                return Err(e);
            },
        };
        let _ = self.local.put(&page);
        Ok(page)
    }

    /// Stores the page in the local store, then in the remote one. A
    /// failure of either is returned.
    fn put(&mut self, page: &Page) -> (res: Result<Cid, PageStoreError>)
        ensures
            final(self).grew_from(old(self)),
            final(self).names_kept(old(self)),
            final(self).stats == old(self).stats,
            final(self).root_cache == old(self).root_cache,
            res is Ok ==> final(self).local.pages().contains(page.data@)
                && final(self).remote.pages().contains(page.data@),
    {
        let cid = match self.local.put(page) {
            Ok(cid) => cid,
            Err(e) => {
                return Err(e);
            },
        };
        match self.remote.put(page) {
            Ok(_) => Ok(cid),
            Err(e) => Err(e),
        }
    }

    /// Makes `new_root` the root of both stores and keeps it in memory as
    /// fetched now. When either store fails, the root in memory stays as it
    /// was.
    fn update_root(&mut self, new_root: Cid) -> (res: Result<(), PageStoreError>)
        ensures
            final(self).grew_from(old(self)),
            final(self).names_kept(old(self)),
            final(self).stats == old(self).stats,
            res is Ok ==> {
                &&& final(self).root_cache.root == crate::store::root_value(new_root)
                &&& final(self).root_cache.fetched_at is Some
                &&& final(self).local.root() == crate::store::root_value(new_root)
                &&& final(self).remote.root() == crate::store::root_value(new_root)
            },
            res is Err ==> final(self).root_cache == old(self).root_cache,
    {
        let now = self.clock.now();
        self.update_root_at(new_root, now)
    }

    /// The cached root while it is fresh, else the remote's, fetched anew
    /// and kept in memory. A cached root that is fresh at every time, as
    /// one is that has no time to live, is the answer whatever the clock
    /// says, and then neither store is asked.
    fn current_root(&mut self) -> (res: Result<Option<Cid>, PageStoreError>)
        ensures
            final(self).grew_from(old(self)),
            final(self).names_kept(old(self)),
            final(self).stats == old(self).stats,
            old(self).root_cache.always_fresh(old(self).config.root_ttl) ==> res == Ok::<
                Option<Cid>,
                PageStoreError,
            >(old(self).root_cache.root) && *final(self) == *old(self),
            res matches Ok(root) ==> final(self).root_cache.root == root && (final(self).root_cache
                == old(self).root_cache || {
                &&& final(self).root_cache.fetched_at is Some
                &&& final(self).remote.root() == root
                &&& root matches Some(cid) ==> final(self).local.root() == Some(cid)
            }),
    {
        let now = self.clock.now();
        self.current_root_at(now)
    }

    /// Saves the named root in the local store, then in the remote one:
    /// once both took it, both hold the identifier under the name.
    fn set_named_root(&mut self, name: &str, cid: Cid) -> (res: Result<(), PageStoreError>)
        ensures
            final(self).grew_from(old(self)),
            final(self).stats == old(self).stats,
            final(self).root_cache == old(self).root_cache,
            res is Ok ==> final(self).local.named().contains((name@, cid))
                && final(self).remote.named().contains((name@, cid)),
    {
        match self.local.set_named_root(name, cid) {
            Ok(()) => {},
            Err(e) => {
                return Err(e);
            },
        }
        self.remote.set_named_root(name, cid)
    }

    /// The named root of the local store if it gives one, else what the
    /// remote gives. What comes back is held under the name by the local
    /// store or by the remote one.
    fn get_named_root(&mut self, name: &str) -> (res: Result<Option<Cid>, PageStoreError>)
        ensures
            final(self).grew_from(old(self)),
            final(self).stats == old(self).stats,
            final(self).root_cache == old(self).root_cache,
            res matches Ok(Some(cid)) ==> final(self).local.named().contains((name@, cid))
                || final(self).remote.named().contains((name@, cid)),
    {
        match named_by(self.local.get_named_root(name)) {
            Some(cid) => Ok(Some(cid)),
            None => self.remote.get_named_root(name),
        }
    }

    /// Removes the named root from both stores; `true` if either had it,
    /// and then one of them did hold a root under the name. Neither store
    /// holds afterwards what it did not hold before.
    fn remove_named_root(&mut self, name: &str) -> (res: Result<bool, PageStoreError>)
        ensures
            final(self).grew_from(old(self)),
            final(self).stats == old(self).stats,
            final(self).root_cache == old(self).root_cache,
            final(self).local.named().subset_of(old(self).local.named()),
            final(self).remote.named().subset_of(old(self).remote.named()),
            res matches Ok(true) ==> crate::store::held_under(old(self).local.named(), name@)
                || crate::store::held_under(old(self).remote.named(), name@),
    {
        let local_removed = match self.local.remove_named_root(name) {
            Ok(removed) => removed,
            Err(e) => {
                return Err(e);
            },
        };
        let remote_removed = match self.remote.remove_named_root(name) {
            Ok(removed) => removed,
            Err(e) => {
                return Err(e);
            },
        };
        proof {
            if local_removed {
                let cid = choose|cid: Cid|
                    #[trigger] old(self).local.named().contains((name@, cid));
                assert(old(self).named().contains((name@, cid)));
            }
            if remote_removed {
                let cid = choose|cid: Cid|
                    #[trigger] old(self).remote.named().contains((name@, cid));
                assert(old(self).named().contains((name@, cid)));
            }
        }
        Ok(removed_by_either(local_removed, remote_removed))
    }

    /// The named roots of both stores in the order of their names; for a
    /// name that both have, the remote's identifier stands. A store that
    /// fails counts as having none, so the call itself never fails. Each
    /// root listed is held by the remote store or by the local one.
    fn list_named_roots(&mut self) -> (res: Result<Vec<(String, Cid)>, PageStoreError>)
        ensures
            final(self).grew_from(old(self)),
            final(self).stats == old(self).stats,
            final(self).root_cache == old(self).root_cache,
            res matches Ok(roots) && crate::names::names_ascend(roots@) && forall|i: int|
                0 <= i < roots@.len() ==> final(self).remote.named().contains(
                    ((#[trigger] roots@[i]).0@, roots@[i].1),
                ) || final(self).local.named().contains((roots@[i].0@, roots@[i].1)),
    {
        let local_roots = crate::store::listed_by(self.local.list_named_roots());
        let ghost local_named = self.local.named();
        let remote_roots = crate::store::listed_by(self.remote.list_named_roots());
        let ghost first = local_roots@;
        let ghost second = remote_roots@;
        let merged = merge_named(local_roots, remote_roots);
        proof {
            assert forall|i: int| 0 <= i < merged@.len() implies self.remote.named().contains(
                ((#[trigger] merged@[i]).0@, merged@[i].1),
            ) || self.local.named().contains((merged@[i].0@, merged@[i].1)) by {
                let name = merged@[i].0@;
                crate::names::lemma_lookup_finds(merged@, i);
                if crate::names::named_lookup(second, name) is Some {
                    crate::names::lemma_lookup_is_entry(second, name);
                    let k = choose|k: int|
                        0 <= k < second.len() && (#[trigger] second[k]).0@ == name && second[k].1
                            == crate::names::named_lookup(second, name)->0;
                    assert(self.remote.named().contains((second[k].0@, second[k].1)));
                } else {
                    crate::names::lemma_lookup_is_entry(first, name);
                    let k = choose|k: int|
                        0 <= k < first.len() && (#[trigger] first[k]).0@ == name && first[k].1
                            == crate::names::named_lookup(first, name)->0;
                    assert(local_named.contains((first[k].0@, first[k].1)));
                }
            }
            assert forall|i: int| 0 <= i < merged@.len() implies self.named().contains(
                ((#[trigger] merged@[i]).0@, merged@[i].1),
            ) by {
                assert(self.remote.named().contains((merged@[i].0@, merged@[i].1))
                    || self.local.named().contains((merged@[i].0@, merged@[i].1)));
            }
        }
        Ok(merged)
    }
}

/// A root that was set stays the answer, without the remote being asked,
/// for as long as less than the time to live has passed: the cache that
/// `update_root_at` leaves at the time `set_at` is fresh at every later
/// time `now` within the time to live, and a fresh cache is what
/// `current_root_at` answers from, leaving both stores alone.
pub proof fn law_root_stays_fresh(root: Cid, ttl: Option<u64>, set_at: u64, now: u64)
    requires
        !root.spec_is_null(),
        set_at <= now,
        ttl matches Some(ttl) ==> now - set_at < ttl,
    ensures
        (RootCache { root: crate::store::root_value(root), fetched_at: Some(set_at) }).is_fresh(
            ttl,
            now,
        ),
        (RootCache { root: crate::store::root_value(root), fetched_at: Some(set_at) }).root == Some(
            root,
        ),
{
}

impl RootCache {
    /// Whether the cached root answers at every time: there is one, and
    /// the clock cannot make it stale.
    pub open spec fn always_fresh(&self, ttl: Option<u64>) -> bool {
        forall|now: u64| #[trigger] self.is_fresh(ttl, now)
    }
}

/// Whether both stores hold a page with the identifier.
pub open spec fn held_by_both(cid: Cid, local: Set<Seq<u8>>, remote: Set<Seq<u8>>) -> bool {
    exists|page: Seq<u8>|
        #![trigger local.contains(page)]
        local.contains(page) && remote.contains(page) && cid == Cid::of(page)
}

/// Whether `taken` can be the places, among the identifiers asked for, of
/// the pages that a prefetch copied: the places ascend, and for the
/// identifier at each place both stores hold a page.
pub open spec fn copied(
    cids: Seq<Cid>,
    taken: Seq<int>,
    local: Set<Seq<u8>>,
    remote: Set<Seq<u8>>,
) -> bool {
    &&& forall|k: int| 0 <= k < taken.len() ==> 0 <= #[trigger] taken[k] < cids.len()
    &&& forall|j: int, k: int|
        0 <= j < k < taken.len() ==> #[trigger] taken[j] < #[trigger] taken[k]
    &&& forall|k: int|
        0 <= k < taken.len() ==> held_by_both(cids[#[trigger] taken[k]], local, remote)
}

/// Whether the local store had refused the identifier at each of the
/// places `taken`: a page is copied only when the local store does not
/// serve it.
pub open spec fn missed(cids: Seq<Cid>, taken: Seq<int>, refused: Set<Cid>) -> bool {
    forall|k: int|
        0 <= k < taken.len() && 0 <= #[trigger] taken[k] < cids.len() ==> refused.contains(
            cids[taken[k]],
        )
}

/// Whether the store holds a page with the identifier.
pub open spec fn held_locally(pages: Set<Seq<u8>>, cid: Cid) -> bool {
    exists|page: Seq<u8>|
        #![trigger pages.contains(page)]
        pages.contains(page) && cid == Cid::of(page)
}

/// Whether each of the identifiers has a page in the local store or was
/// refused by the remote.
pub open spec fn settled(cids: Seq<Cid>, local: Set<Seq<u8>>, refused: Set<Cid>) -> bool {
    forall|i: int|
        0 <= i < cids.len() ==> held_locally(local, #[trigger] cids[i]) || refused.contains(cids[i])
}

/// The entries among the first `n` slots of the table that the local store
/// did not serve, in page order.
pub open spec fn unserved_upto(table: Seq<Option<Cid>>, served: Seq<bool>, n: nat) -> Seq<Cid>
    decreases n,
{
    if n == 0 {
        Seq::empty()
    } else {
        let before = unserved_upto(table, served, (n - 1) as nat);
        match crate::page_table::entry_at(table, n - 1) {
            Some(cid) => if served[n - 1] {
                before
            } else {
                before.push(cid)
            },
            None => before,
        }
    }
}

/// Whether `served` is what the local store answered for slot `i`: it
/// holds a page for an entry that it served and refused one that it did
/// not.
pub open spec fn answered(
    table: Seq<Option<Cid>>,
    i: int,
    served: bool,
    pages: Set<Seq<u8>>,
    refused: Set<Cid>,
) -> bool {
    match crate::page_table::entry_at(table, i) {
        Some(cid) => if served {
            held_locally(pages, cid)
        } else {
            refused.contains(cid)
        },
        None => true,
    }
}

/// Whether `served` holds what the local store answered for the slots that
/// were looked at.
pub open spec fn answers_of(
    table: Seq<Option<Cid>>,
    served: Seq<bool>,
    pages: Set<Seq<u8>>,
    refused: Set<Cid>,
) -> bool {
    forall|i: int|
        0 <= i < served.len() ==> answered(table, i, #[trigger] served[i], pages, refused)
}

/// Whether the slots were looked at in page order until the table ended or
/// the bound on the pages to ask for was reached.
pub open spec fn selection(table: Seq<Option<Cid>>, served: Seq<bool>, max: usize) -> bool {
    let wanted = unserved_upto(table, served, served.len());
    &&& served.len() <= table.len()
    &&& max > 0 ==> wanted.len() <= max
    &&& served.len() == table.len() || (max > 0 && wanted.len() == max)
}

/// Whether `table` is the table under the root: both stores hold a page
/// with the root's identifier that reads as the table.
pub open spec fn table_of(
    root: Cid,
    local: Set<Seq<u8>>,
    remote: Set<Seq<u8>>,
    table: Seq<Option<Cid>>,
) -> bool {
    exists|page: Seq<u8>|
        #![trigger local.contains(page)]
        {
            &&& local.contains(page)
            &&& remote.contains(page)
            &&& root == Cid::of(page)
            &&& crate::page_table::table_decoding(page) == Some(
                crate::page_table::raw_entries(table),
            )
        }
}

/// Whether `fetched` is the number of pages that a prefetch under the root
/// copied. Both stores hold the root's table. Its slots were looked at in
/// page order, up to the bound, and `served` is what the local store
/// answered for them. The entries that it did not serve were asked of the
/// remote: each has a page in the local store now or was refused by the
/// remote, and `fetched` of them were copied.
pub open spec fn prefetched(
    root: Cid,
    max: usize,
    local: Set<Seq<u8>>,
    local_refused: Set<Cid>,
    remote: Set<Seq<u8>>,
    remote_refused: Set<Cid>,
    fetched: usize,
) -> bool {
    exists|table: Seq<Option<Cid>>, served: Seq<bool>, taken: Seq<int>|
        #![trigger copied(unserved_upto(table, served, served.len()), taken, local, remote)]
        {
            &&& table_of(root, local, remote, table)
            &&& selection(table, served, max)
            &&& answers_of(table, served, local, local_refused)
            &&& settled(unserved_upto(table, served, served.len()), local, remote_refused)
            &&& taken.len() == fetched
            &&& copied(unserved_upto(table, served, served.len()), taken, local, remote)
        }
}

/// A page that the store holds is still held when it takes in more pages.
pub proof fn lemma_held_locally_grows(cid: Cid, pages: Set<Seq<u8>>, more: Set<Seq<u8>>)
    requires
        pages.subset_of(more),
        held_locally(pages, cid),
    ensures
        held_locally(more, cid),
{
    let page = choose|page: Seq<u8>|
        #![trigger pages.contains(page)]
        pages.contains(page) && cid == Cid::of(page);
    assert(more.contains(page));
}

/// The answers of the local store stay its answers when it takes in more
/// pages and refuses more.
pub proof fn lemma_answers_grow(
    table: Seq<Option<Cid>>,
    served: Seq<bool>,
    pages: Set<Seq<u8>>,
    refused: Set<Cid>,
    more_pages: Set<Seq<u8>>,
    more_refused: Set<Cid>,
)
    requires
        pages.subset_of(more_pages),
        refused.subset_of(more_refused),
        answers_of(table, served, pages, refused),
    ensures
        answers_of(table, served, more_pages, more_refused),
{
    assert forall|i: int| 0 <= i < served.len() implies answered(
        table,
        i,
        #[trigger] served[i],
        more_pages,
        more_refused,
    ) by {
        assert(answered(table, i, served[i], pages, refused));
        if let Some(cid) = crate::page_table::entry_at(table, i) {
            if served[i] {
                lemma_held_locally_grows(cid, pages, more_pages);
            }
        }
    }
}

/// One more answer leaves what was unserved among the slots before it.
pub proof fn lemma_unserved_prefix(
    table: Seq<Option<Cid>>,
    served: Seq<bool>,
    longer: Seq<bool>,
    n: nat,
)
    requires
        n <= served.len(),
        served.len() <= longer.len(),
        forall|i: int| 0 <= i < served.len() ==> served[i] == longer[i],
    ensures
        unserved_upto(table, longer, n) == unserved_upto(table, served, n),
    decreases n,
{
    if n > 0 {
        lemma_unserved_prefix(table, served, longer, (n - 1) as nat);
    }
}

/// A page that both stores hold is still held by both when they take in
/// more pages.
pub proof fn lemma_held_by_both_grows(
    cid: Cid,
    local: Set<Seq<u8>>,
    remote: Set<Seq<u8>>,
    more_local: Set<Seq<u8>>,
    more_remote: Set<Seq<u8>>,
)
    requires
        local.subset_of(more_local),
        remote.subset_of(more_remote),
        held_by_both(cid, local, remote),
    ensures
        held_by_both(cid, more_local, more_remote),
{
    let page = choose|page: Seq<u8>|
        #![trigger local.contains(page)]
        local.contains(page) && remote.contains(page) && cid == Cid::of(page);
    assert(more_local.contains(page) && more_remote.contains(page));
}

} // verus!
