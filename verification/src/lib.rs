//! Content-addressed page storage for an embedded SQL engine.
//!
//! Every database page is named by the SHA-256 digest of its bytes, a page
//! table maps page numbers to digests, and a root pointer names the current
//! page table. Snapshots and branches are further named pointers to page
//! tables of the past.
//!
//! - [`cid`]: content identifiers, pages and the error of every store.
//! - [`page_table`]: the page table, its differences and its serialized
//!   form.
//! - [`store`]: what every page store and every network backend offers.
//! - [`local`]: the layout of a store on disk and the reading of its files.
//! - [`bundle`]: the blob that packs a table and all its pages.
//! - [`objstore`]: the store over a network of blobs, with a cache.
//! - [`cached`]: the store that pairs a local and a remote store.
//! - [`daemon`]: the client side of the object daemon's protocol.
//! - [`vfs`]: the file that the database engine sees.
//! - [`names`], [`bytes`], [`text`]: helpers on names of roots, byte
//!   vectors and strings.
//!
//! The library does no input or output of its own: files, sockets and the
//! engine are the caller's, who hands over what was read and carries out
//! what is to be written.

pub mod bundle;
pub mod bytes;
pub mod cached;
pub mod cid;
pub mod daemon;
pub mod local;
pub mod names;
pub mod objstore;
pub mod page_table;
pub mod store;
pub mod text;
pub mod vfs;

pub use cached::CacheConfig;
pub use cached::CachingPageStore;
pub use cid::Cid;
pub use cid::Page;
pub use cid::PageStoreError;
pub use daemon::DaemonBackend;
pub use local::LocalPageStore;
pub use objstore::CraftObjPageStore;
pub use objstore::MockNetworkBackend;
pub use page_table::PageTable;
pub use page_table::PageTableDiff;
pub use store::NetworkBackend;
pub use store::PageStore;
