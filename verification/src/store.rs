//! The interfaces that every page store and every network backend offers.

use vstd::prelude::*;
use crate::cid::Cid;
use crate::cid::Page;
use crate::cid::PageStoreError;

verus! {

/// The root that a store holds once `cid` was made its root: none after a
/// reset to the null identifier.
pub open spec fn root_value(cid: Cid) -> Option<Cid> {
    if cid.spec_is_null() {
        None
    } else {
        Some(cid)
    }
}

/// One more than a counter, starting over at zero after the largest value.
pub open spec fn bumped(counter: u64) -> u64 {
    if counter == u64::MAX {
        0
    } else {
        (counter + 1) as u64
    }
}

/// Adds one to a counter.
pub fn bump(counter: u64) -> (next: u64)
    ensures
        next == bumped(counter),
{
    counter.wrapping_add(1)
}

/// The identifier that a side's answer names, for a store that asks two
/// sides in turn: the one it gives. An answer without one, or a failure,
/// names none, and then the other side is asked.
pub fn named_by(answer: Result<Option<Cid>, PageStoreError>) -> (named: Option<Cid>)
    ensures
        named == match answer {
            Ok(Some(cid)) => Some(cid),
            _ => None,
        },
{
    match answer {
        Ok(Some(cid)) => Some(cid),
        _ => None,
    }
}

/// The named roots that a side's answer lists, for a store that lists
/// what its two sides hold: those that it gives; a side that fails counts
/// as holding none.
pub fn listed_by(answer: Result<Vec<(String, Cid)>, PageStoreError>) -> (roots: Vec<(String, Cid)>)
    ensures
        match answer {
            Ok(listed) => roots == listed,
            Err(_) => roots@.len() == 0,
        },
{
    match answer {
        Ok(listed) => listed,
        Err(_) => Vec::new(),
    }
}

/// Whether the store lost nothing between `before` and `after`: every page
/// that it had taken in, and every answer of an error, is still on record.
pub open spec fn nothing_lost<S: PageStore + ?Sized>(before: &S, after: &S) -> bool {
    &&& before.pages().subset_of(after.pages())
    &&& before.refused().subset_of(after.refused())
    &&& before.declined().subset_of(after.declined())
}

/// Whether some identifier is held under the name.
pub open spec fn held_under(named: Set<(Seq<char>, Cid)>, name: Seq<char>) -> bool {
    exists|cid: Cid| #[trigger] named.contains((name, cid))
}

/// Whether every root of the list is held.
pub open spec fn all_held(named: Set<(Seq<char>, Cid)>, roots: Seq<(String, Cid)>) -> bool {
    forall|i: int| 0 <= i < roots.len() ==> named.contains(((#[trigger] roots[i]).0@, roots[i].1))
}

/// Whether no two byte strings of `pages` share a SHA-256 digest.
pub open spec fn digests_distinct(pages: Set<Seq<u8>>) -> bool {
    forall|a: Seq<u8>, b: Seq<u8>|
        #![trigger pages.contains(a), pages.contains(b)]
        pages.contains(a) && pages.contains(b) && Cid::of(a) == Cid::of(b) ==> a == b
}

/// A store of immutable pages named by their digest, with a default root
/// pointer and named roots.
///
/// The contracts below are what every implementation owes. They speak of
/// the implementation's own invariant, `wf`, and of what it holds:
///
/// - `pages`, every byte string that the store has taken in, by `put` or
///   from a backend;
/// - `root`, the default root as the store last took it in `update_root`
///   or last reported it in `current_root`. A store that publishes its
///   commits as bundles takes a table's identifier and reports the
///   identifier of the bundle that it made of the table: for such a store
///   the two differ, and `root` is the one that was handled last;
/// - `named`, the named roots that it holds;
/// - `refused` and `declined`, what `get` and `put` have answered with an
///   error;
/// - `accepted`, how many times `put` has answered with an identifier.
///
/// A store may fail for reasons of its own, so no contract promises
/// success; what it refused or declined says afterwards that it did fail.
///
/// An implementation that is verified says what these are. The bodies given
/// here stand only for implementations that are not: code that is generic
/// over the trait knows nothing of them, and an implementation outside
/// verification cannot state them, since they are no executable code.
pub trait PageStore {
    /// The implementation's invariant.
    open spec fn wf(&self) -> bool {
        true
    }

    /// The byte strings that the store has taken in as pages.
    open spec fn pages(&self) -> Set<Seq<u8>> {
        Set::full()
    }

    /// The default root, `None` while unset or reset.
    open spec fn root(&self) -> Option<Cid> {
        None
    }

    /// The named roots that the store holds: each pair is a name and the
    /// identifier held under it. A store of two sides holds what either
    /// side holds, so a name can stand with more than one identifier.
    open spec fn named(&self) -> Set<(Seq<char>, Cid)> {
        Set::full()
    }

    /// The identifiers that `get` has answered with an error.
    open spec fn refused(&self) -> Set<Cid> {
        Set::full()
    }

    /// The byte strings that `put` has answered with an error.
    open spec fn declined(&self) -> Set<Seq<u8>> {
        Set::full()
    }

    /// How many times `put` has answered with an identifier. No other
    /// operation changes the number.
    open spec fn accepted(&self) -> nat {
        0
    }

    /// Fetches a page by its identifier. A page that comes back has the
    /// requested digest and is one the store holds.
    fn get(&mut self, cid: &Cid) -> (res: Result<Page, PageStoreError>)
        requires
            old(self).wf(),
        ensures
            final(self).wf(),
            old(self).pages().subset_of(final(self).pages()),
            old(self).refused().subset_of(final(self).refused()),
            old(self).declined().subset_of(final(self).declined()),
            final(self).accepted() == old(self).accepted(),
            final(self).root() == old(self).root(),
            final(self).named() == old(self).named(),
            res matches Ok(page) ==> *cid == Cid::of(page.data@) && final(self).pages().contains(
                page.data@,
            ),
            res is Err ==> final(self).refused().contains(*cid),
    ;

    /// Stores a page and returns its identifier. Storing the same bytes
    /// again is no error.
    fn put(&mut self, page: &Page) -> (res: Result<Cid, PageStoreError>)
        requires
            old(self).wf(),
        ensures
            final(self).wf(),
            old(self).pages().subset_of(final(self).pages()),
            old(self).refused().subset_of(final(self).refused()),
            old(self).declined().subset_of(final(self).declined()),
            final(self).pages().subset_of(old(self).pages().insert(page.data@)),
            final(self).root() == old(self).root(),
            final(self).named() == old(self).named(),
            res matches Ok(cid) ==> cid == Cid::of(page.data@) && final(self).pages().contains(
                page.data@,
            ),
            res is Err ==> final(self).declined().contains(page.data@),
            res is Ok ==> final(self).accepted() == old(self).accepted() + 1,
            res is Err ==> final(self).accepted() == old(self).accepted(),
    ;

    /// Makes `new_root` the default root; the null identifier resets it. A
    /// store that fails leaves the root as it was.
    fn update_root(&mut self, new_root: Cid) -> (res: Result<(), PageStoreError>)
        requires
            old(self).wf(),
        ensures
            final(self).wf(),
            old(self).pages().subset_of(final(self).pages()),
            old(self).refused().subset_of(final(self).refused()),
            old(self).declined().subset_of(final(self).declined()),
            final(self).accepted() == old(self).accepted(),
            final(self).named() == old(self).named(),
            res is Ok ==> final(self).root() == root_value(new_root),
            res is Err ==> final(self).root() == old(self).root(),
    ;

    /// The default root, `None` if it was never set or was reset.
    fn current_root(&mut self) -> (res: Result<Option<Cid>, PageStoreError>)
        requires
            old(self).wf(),
        ensures
            final(self).wf(),
            old(self).pages().subset_of(final(self).pages()),
            old(self).refused().subset_of(final(self).refused()),
            old(self).declined().subset_of(final(self).declined()),
            final(self).accepted() == old(self).accepted(),
            final(self).named() == old(self).named(),
            res matches Ok(root) ==> final(self).root() == root,
            res matches Ok(Some(cid)) ==> !cid.spec_is_null(),
    ;

    /// Saves a named root, for a snapshot or a branch: the store then holds
    /// the identifier under the name.
    fn set_named_root(&mut self, name: &str, cid: Cid) -> (res: Result<(), PageStoreError>)
        requires
            old(self).wf(),
        ensures
            final(self).wf(),
            old(self).pages().subset_of(final(self).pages()),
            old(self).refused().subset_of(final(self).refused()),
            old(self).declined().subset_of(final(self).declined()),
            final(self).accepted() == old(self).accepted(),
            final(self).root() == old(self).root(),
            res is Ok ==> final(self).named().contains((name@, cid)),
    ;

    /// Looks a named root up: an identifier that comes back is one that
    /// the store holds under the name.
    fn get_named_root(&mut self, name: &str) -> (res: Result<Option<Cid>, PageStoreError>)
        requires
            old(self).wf(),
        ensures
            final(self).wf(),
            old(self).pages().subset_of(final(self).pages()),
            old(self).refused().subset_of(final(self).refused()),
            old(self).declined().subset_of(final(self).declined()),
            final(self).accepted() == old(self).accepted(),
            final(self).root() == old(self).root(),
            res matches Ok(Some(cid)) ==> final(self).named().contains((name@, cid)),
    ;

    /// Removes a named root; `true` only if the store held one under the
    /// name. Nothing is held afterwards that was not held before.
    fn remove_named_root(&mut self, name: &str) -> (res: Result<bool, PageStoreError>)
        requires
            old(self).wf(),
        ensures
            final(self).wf(),
            old(self).pages().subset_of(final(self).pages()),
            old(self).refused().subset_of(final(self).refused()),
            old(self).declined().subset_of(final(self).declined()),
            final(self).accepted() == old(self).accepted(),
            final(self).root() == old(self).root(),
            final(self).named().subset_of(old(self).named()),
            res matches Ok(true) ==> held_under(old(self).named(), name@),
    ;

    /// The named roots, their names ascending: each is one that the store
    /// holds.
    fn list_named_roots(&mut self) -> (res: Result<Vec<(String, Cid)>, PageStoreError>)
        requires
            old(self).wf(),
        ensures
            final(self).wf(),
            old(self).pages().subset_of(final(self).pages()),
            old(self).refused().subset_of(final(self).refused()),
            old(self).declined().subset_of(final(self).declined()),
            final(self).accepted() == old(self).accepted(),
            final(self).root() == old(self).root(),
            res matches Ok(roots) ==> crate::names::names_ascend(roots@) && all_held(
                final(self).named(),
                roots@,
            ),
    ;
}

/// The network behind a store: blobs published and fetched by digest, and
/// root pointers where the network keeps any.
///
/// `published` is every blob that the backend has taken in or handed out,
/// `named` the named roots that it holds, `root` its root pointer;
/// `publishes` and `fetches` count the calls that moved blobs. A
/// backend promises nothing about the digest of what it hands out: the
/// store checks it. Not every network keeps a root that it is given:
/// `keeps_roots` says whether this one does, and one without roots of its
/// own takes them and holds none. As for a page store, the bodies given
/// here stand only for implementations that are not verified.
pub trait NetworkBackend {
    /// The implementation's invariant.
    open spec fn wf(&self) -> bool {
        true
    }

    /// The blobs that the backend has taken in or handed out.
    open spec fn published(&self) -> Set<Seq<u8>> {
        Set::full()
    }

    /// The named roots that the network holds: each pair is a name and the
    /// identifier held under it.
    open spec fn named(&self) -> Set<(Seq<char>, Cid)> {
        Set::full()
    }

    /// The root pointer that the network holds, `None` where it holds none.
    open spec fn root(&self) -> Option<Cid> {
        None
    }

    /// How many times `publish_page` was called, as a 64-bit counter
    /// counts them: after the largest value comes 0.
    open spec fn publishes(&self) -> u64 {
        0
    }

    /// How many times `fetch_page` was called, counted in the same way.
    open spec fn fetches(&self) -> u64 {
        0
    }

    /// Whether the network keeps a root pointer: one that does holds the
    /// root that it was last given, one that does not holds what it held.
    open spec fn keeps_roots(&self) -> bool {
        false
    }

    /// Publishes a blob and returns its identifier.
    fn publish_page(&mut self, data: &[u8]) -> (res: Result<Cid, PageStoreError>)
        requires
            old(self).wf(),
        ensures
            final(self).wf(),
            final(self).keeps_roots() == old(self).keeps_roots(),
            final(self).publishes() == bumped(old(self).publishes()),
            final(self).fetches() == old(self).fetches(),
            old(self).published().subset_of(final(self).published()),
            final(self).published().subset_of(old(self).published().insert(data@)),
            final(self).root() == old(self).root(),
            final(self).named() == old(self).named(),
            res matches Ok(cid) ==> cid == Cid::of(data@) && final(self).published().contains(
                data@,
            ),
    ;

    /// Fetches a blob by its identifier.
    fn fetch_page(&mut self, cid: &Cid) -> (res: Result<Vec<u8>, PageStoreError>)
        requires
            old(self).wf(),
        ensures
            final(self).wf(),
            final(self).keeps_roots() == old(self).keeps_roots(),
            final(self).publishes() == old(self).publishes(),
            final(self).fetches() == bumped(old(self).fetches()),
            old(self).published().subset_of(final(self).published()),
            final(self).root() == old(self).root(),
            final(self).named() == old(self).named(),
            res matches Ok(data) ==> final(self).published().contains(data@),
    ;

    /// The root pointer that the network holds, if it holds one.
    fn get_root(&mut self) -> (res: Result<Option<Cid>, PageStoreError>)
        requires
            old(self).wf(),
        ensures
            final(self).wf(),
            final(self).keeps_roots() == old(self).keeps_roots(),
            final(self).publishes() == old(self).publishes(),
            final(self).fetches() == old(self).fetches(),
            final(self).published() == old(self).published(),
            final(self).named() == old(self).named(),
            final(self).root() == old(self).root(),
            res matches Ok(root) ==> final(self).root() == root,
    ;

    /// Sets the root pointer on the network. A network that keeps a root
    /// then holds this one; one that keeps none holds what it held.
    fn set_root(&mut self, cid: Cid) -> (res: Result<(), PageStoreError>)
        requires
            old(self).wf(),
        ensures
            final(self).wf(),
            final(self).keeps_roots() == old(self).keeps_roots(),
            final(self).publishes() == old(self).publishes(),
            final(self).fetches() == old(self).fetches(),
            final(self).published() == old(self).published(),
            final(self).named() == old(self).named(),
            res is Ok ==> final(self).root() == if old(self).keeps_roots() {
                Some(cid)
            } else {
                old(self).root()
            },
            res is Err ==> final(self).root() == old(self).root(),
    ;

    /// Looks a named root up on the network: an identifier that comes back
    /// is one that the network holds under the name.
    fn get_named_root(&mut self, name: &str) -> (res: Result<Option<Cid>, PageStoreError>)
        requires
            old(self).wf(),
        ensures
            final(self).wf(),
            final(self).keeps_roots() == old(self).keeps_roots(),
            final(self).publishes() == old(self).publishes(),
            final(self).fetches() == old(self).fetches(),
            final(self).published() == old(self).published(),
            final(self).root() == old(self).root(),
            res matches Ok(Some(cid)) ==> final(self).named().contains((name@, cid)),
    ;

    /// Sets a named root on the network.
    fn set_named_root(&mut self, name: &str, cid: Cid) -> (res: Result<(), PageStoreError>)
        requires
            old(self).wf(),
        ensures
            final(self).wf(),
            final(self).keeps_roots() == old(self).keeps_roots(),
            final(self).publishes() == old(self).publishes(),
            final(self).fetches() == old(self).fetches(),
            final(self).published() == old(self).published(),
            final(self).root() == old(self).root(),
    ;

    /// Removes a named root from the network; `true` only if the network
    /// held one under the name. Nothing is held afterwards that was not
    /// held before.
    fn remove_named_root(&mut self, name: &str) -> (res: Result<bool, PageStoreError>)
        requires
            old(self).wf(),
        ensures
            final(self).wf(),
            final(self).keeps_roots() == old(self).keeps_roots(),
            final(self).publishes() == old(self).publishes(),
            final(self).fetches() == old(self).fetches(),
            final(self).published() == old(self).published(),
            final(self).root() == old(self).root(),
            final(self).named().subset_of(old(self).named()),
            res matches Ok(true) ==> held_under(old(self).named(), name@),
    ;

    /// The named roots on the network, their names ascending: each is one
    /// that the network holds.
    fn list_named_roots(&mut self) -> (res: Result<Vec<(String, Cid)>, PageStoreError>)
        requires
            old(self).wf(),
        ensures
            final(self).wf(),
            final(self).keeps_roots() == old(self).keeps_roots(),
            final(self).publishes() == old(self).publishes(),
            final(self).fetches() == old(self).fetches(),
            final(self).published() == old(self).published(),
            final(self).root() == old(self).root(),
            res matches Ok(roots) ==> crate::names::names_ascend(roots@) && all_held(
                final(self).named(),
                roots@,
            ),
    ;
}

/// Reading a page back after storing it gives the same bytes, unless the
/// store holds another page with the same digest. `stored` is what the
/// store holds once `put` has taken `page`, `read` what it holds once `get`
/// has answered the identifier of `page` with `got`.
pub proof fn law_get_returns_what_put_stored(
    stored: Set<Seq<u8>>,
    read: Set<Seq<u8>>,
    page: Seq<u8>,
    got: Seq<u8>,
)
    requires
        stored.contains(page),
        stored.subset_of(read),
        read.contains(got),
        Cid::of(got) == Cid::of(page),
        digests_distinct(read),
    ensures
        got == page,
{
    assert(read.contains(page));
}

/// Storing the same page again changes nothing: `before`, `once` and
/// `twice` are what the store holds before the first `put` of `page`,
/// after it and after the second, whether the second succeeds or not.
pub proof fn law_put_is_idempotent(
    before: Set<Seq<u8>>,
    once: Set<Seq<u8>>,
    twice: Set<Seq<u8>>,
    page: Seq<u8>,
)
    requires
        before.subset_of(once),
        once.subset_of(before.insert(page)),
        once.contains(page),
        once.subset_of(twice),
        twice.subset_of(once.insert(page)),
    ensures
        twice == once,
        once == before.insert(page),
{
    assert(twice =~= once);
    assert(once =~= before.insert(page));
}

} // verus!
