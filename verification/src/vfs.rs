//! The file that the database engine sees: byte-offset reads and writes
//! turned into pages, buffered per connection and committed on sync.

use vstd::prelude::*;
use crate::bytes::copy_bytes;
use crate::bytes::zero_bytes;
use crate::cid::Cid;
use crate::cid::Page;
use crate::cid::PageStoreError;
use crate::page_table::PageTable;
use crate::store::PageStore;
use crate::text::owned;

verus! {

/// The page size used until the engine's header says otherwise.
pub const DEFAULT_PAGE_SIZE: usize = 4096;

/// Whether `n` is a page size: a power of two from 512 to 65536.
pub open spec fn valid_page_size(n: int) -> bool {
    n == 512 || n == 1024 || n == 2048 || n == 4096 || n == 8192 || n == 16384 || n == 32768 || n
        == 65536
}

/// The kind of file that the engine opens.
#[derive(Debug, Clone, Copy, PartialEq, Eq, Structural)]
pub enum OpenKind {
    MainDb,
    MainJournal,
    TempDb,
    TempJournal,
    TransientDb,
    SubJournal,
    SuperJournal,
    Wal,
}

/// The access that the engine opens a file with.
#[derive(Debug, Clone, Copy, PartialEq, Eq, Structural)]
pub enum OpenAccess {
    Read,
    Write,
    Create,
    CreateNew,
}

/// The lock that a connection holds.
#[derive(Debug, Clone, Copy, PartialEq, Eq, Structural)]
pub enum LockKind {
    Unlocked,
    Shared,
    Reserved,
    Pending,
    Exclusive,
}

/// The category of an error that the engine is told of.
#[derive(Debug, Clone, Copy, PartialEq, Eq, Structural)]
pub enum VfsErrorKind {
    /// The database does not exist.
    NotFound,
    /// Stored bytes could not be read as what they should be.
    InvalidData,
    /// The request is outside what this machine can address.
    InvalidInput,
    /// The store failed.
    Other,
}

/// An error for the engine: a category and a message.
#[derive(Debug)]
pub struct VfsError {
    pub kind: VfsErrorKind,
    pub message: String,
}

/// The buffered bytes of a page number: `None` where nothing is buffered.
pub open spec fn slot_at(slots: Seq<Option<Seq<u8>>>, page_num: int) -> Option<Seq<u8>> {
    if 0 <= page_num < slots.len() {
        slots[page_num]
    } else {
        None
    }
}

/// Whether `image` can stand for page `page_num` on a read: the buffered
/// bytes if there are any, else a page of the store with the identifier
/// that the table gives, else a page of zeros.
pub open spec fn page_image(
    slots: Seq<Option<Seq<u8>>>,
    table: Seq<Option<Cid>>,
    page_size: int,
    pages: Set<Seq<u8>>,
    page_num: int,
    image: Seq<u8>,
) -> bool {
    match slot_at(slots, page_num) {
        Some(data) => image == data,
        None => match crate::page_table::entry_at(table, page_num) {
            Some(cid) => pages.contains(image) && cid == Cid::of(image),
            None => image == crate::bytes::zeros(page_size as nat),
        },
    }
}

/// Whether `byte` can be what a read finds at position `pos` of the file:
/// the byte of the page's image at that place, zero past the image's end.
pub open spec fn readable(
    slots: Seq<Option<Seq<u8>>>,
    table: Seq<Option<Cid>>,
    page_size: int,
    pages: Set<Seq<u8>>,
    pos: int,
    byte: u8,
) -> bool {
    exists|image: Seq<u8>|
        #[trigger] page_image(slots, table, page_size, pages, pos / page_size, image) && byte
            == crate::bytes::byte_or_zero(image, pos % page_size)
}

/// The pages that a read or write of `len` bytes at `offset` touches need
/// no store: each is buffered or absent from the table.
pub open spec fn needs_no_store(
    slots: Seq<Option<Seq<u8>>>,
    table: Seq<Option<Cid>>,
    page_size: int,
    offset: int,
    len: int,
) -> bool {
    forall|pos: int|
        offset <= pos < offset + len ==> slot_at(slots, #[trigger] (pos / page_size)) is Some
            || crate::page_table::entry_at(table, pos / page_size) is None
}

/// The page size that a database header announces at its offsets 16 and
/// 17, big-endian.
pub open spec fn header_page_size(data: Seq<u8>) -> int {
    data[16] as int * 256 + data[17] as int
}

/// The page size once `data` has been written at `offset`: the one that the
/// header announces, if this is the first write of a new database, at least
/// 100 bytes at offset 0, and the announced size is one; else the size as
/// it was.
pub open spec fn page_size_after_write(
    page_size: int,
    table: Seq<Option<Cid>>,
    offset: int,
    data: Seq<u8>,
) -> int {
    if offset == 0 && table.len() == 0 && data.len() >= 100 && valid_page_size(
        header_page_size(data),
    ) {
        header_page_size(data)
    } else {
        page_size
    }
}

/// Whether `base` can be what a write finds as page `page_num` before it
/// changes it: the buffered bytes if there are any, else a page of the
/// store with the identifier that the table gives, else a page of zeros.
pub open spec fn write_base(
    slots: Seq<Option<Seq<u8>>>,
    table: Seq<Option<Cid>>,
    page_size: int,
    pages: Set<Seq<u8>>,
    page_num: int,
    base: Seq<u8>,
) -> bool {
    match slot_at(slots, page_num) {
        Some(data) => base == data,
        None => match crate::page_table::entry_at(table, page_num) {
            Some(cid) => pages.contains(base) && cid == Cid::of(base),
            None => base == crate::bytes::zeros(page_size as nat),
        },
    }
}

/// `base` with `seg` written over it from index `at` on.
pub open spec fn overlay(base: Seq<u8>, at: int, seg: Seq<u8>) -> Seq<u8> {
    Seq::new(base.len(), |o: int| if at <= o < at + seg.len() { seg[o - at] } else { base[o] })
}

/// Where in page `page_num` a write at `offset` starts.
pub open spec fn segment_start(offset: int, page_size: int, page_num: int) -> int {
    if page_num * page_size <= offset {
        offset - page_num * page_size
    } else {
        0
    }
}

/// The part of `data`, written at `offset`, that falls into page
/// `page_num`.
pub open spec fn segment(data: Seq<u8>, offset: int, page_size: int, page_num: int) -> Seq<u8> {
    let from = if page_num * page_size <= offset { 0 } else { page_num * page_size - offset };
    let to = if (page_num + 1) * page_size <= offset + data.len() {
        (page_num + 1) * page_size - offset
    } else {
        data.len() as int
    };
    data.subrange(from, to)
}

/// Whether `result` can be the buffered bytes of page `page_num` once
/// `data` has been written at `offset`: what the write found, filled to a
/// whole page with zeros, with the page's part of `data` written over it.
pub open spec fn written_slot(
    slots: Seq<Option<Seq<u8>>>,
    table: Seq<Option<Cid>>,
    page_size: int,
    pages: Set<Seq<u8>>,
    data: Seq<u8>,
    offset: int,
    page_num: int,
    result: Seq<u8>,
) -> bool {
    exists|base: Seq<u8>|
        #[trigger] write_base(slots, table, page_size, pages, page_num, base) && result == overlay(
            crate::bytes::padded(base, page_size as nat),
            segment_start(offset, page_size, page_num),
            segment(data, offset, page_size, page_num),
        )
}

/// Whether page `page_num` is buffered in `current` with bytes that can be
/// the result of writing `data` at `offset` over the buffer `slots`.
pub open spec fn holds_written(
    current: Seq<Option<Seq<u8>>>,
    slots: Seq<Option<Seq<u8>>>,
    table: Seq<Option<Cid>>,
    page_size: int,
    pages: Set<Seq<u8>>,
    data: Seq<u8>,
    offset: int,
    page_num: int,
) -> bool {
    slot_at(current, page_num) is Some && written_slot(
        slots,
        table,
        page_size,
        pages,
        data,
        offset,
        page_num,
        slot_at(current, page_num)->0,
    )
}

/// Whether the store refused a page that a write needed: one of the pages
/// from `first` to `last` that is in the table and not in the buffer.
pub open spec fn refused_page(
    slots: Seq<Option<Seq<u8>>>,
    table: Seq<Option<Cid>>,
    refused: Set<Cid>,
    first: int,
    last: int,
) -> bool {
    exists|j: int|
        first <= j <= last && slot_at(slots, j) is None && (#[trigger] crate::page_table::entry_at(
            table,
            j,
        )) is Some && refused.contains(crate::page_table::entry_at(table, j)->0)
}

/// Whether a write of `len` bytes at `offset` is outside what this machine
/// can address: its end is past the largest offset, or its last page past
/// the largest index.
pub open spec fn write_out_of_reach(offset: int, len: int, page_size: int) -> bool {
    offset + len > u64::MAX || (len > 0 && (offset + len - 1) / page_size >= usize::MAX)
}

/// Buffered pages of one database connection.
#[derive(Debug)]
pub struct PageBuffer {
    /// Page data by page number: bytes loaded or written since the last
    /// sync.
    pub pages: Vec<Option<Vec<u8>>>,
    /// Page size of the database.
    pub page_size: usize,
    /// Size of the file as the engine sees it.
    pub file_size: u64,
    /// The table as of the last commit, updated in place at sync.
    pub page_table: PageTable,
    /// Whether anything was written since the last sync.
    pub dirty: bool,
}

impl PageBuffer {
    /// The buffered bytes by page number.
    pub open spec fn slots(&self) -> Seq<Option<Seq<u8>>> {
        Seq::new(
            self.pages@.len(),
            |i: int|
                match self.pages@[i] {
                    Some(data) => Some(data@),
                    None => None,
                },
        )
    }

    /// The buffer's invariant: its page size is one.
    pub open spec fn wf(&self) -> bool {
        valid_page_size(self.page_size as int)
    }

    /// A clean buffer over a table: no page buffered, one slot for each
    /// entry, and a file of that many whole pages.
    pub fn new(page_table: PageTable, page_size: usize) -> (buf: PageBuffer)
        requires
            page_table@.len() * page_size <= u64::MAX,
        ensures
            buf.page_table == page_table,
            buf.page_size == page_size,
            buf.file_size == page_table@.len() * page_size,
            !buf.dirty,
            buf.slots() == Seq::new(page_table@.len(), |i: int| None::<Seq<u8>>),
    {
        let num_pages = page_table.len();
        assert(num_pages * page_size <= u64::MAX);
        let file_size: u64 = (num_pages as u64) * (page_size as u64);
        let mut pages: Vec<Option<Vec<u8>>> = Vec::new();
        let mut i: usize = 0;
        while i < num_pages
            invariant
                i <= num_pages,
                pages@.len() == i,
                forall|k: int| 0 <= k < i ==> pages@[k] is None,
            decreases num_pages - i,
        {
            pages.push(None);
            i += 1;
        }
        let buf = PageBuffer { pages, page_size, file_size, page_table, dirty: false };
        assert(buf.slots() =~= Seq::new(buf.page_table@.len(), |i: int| None::<Seq<u8>>));
        buf
    }

    /// Makes sure the slot of `page_num` exists, adding empty slots up to it.
    pub fn ensure_page(&mut self, page_num: usize)
        requires
            page_num < usize::MAX,
        ensures
            final(self).page_size == old(self).page_size,
            final(self).file_size == old(self).file_size,
            final(self).page_table == old(self).page_table,
            final(self).dirty == old(self).dirty,
            final(self).pages@.len() == if page_num < old(self).pages@.len() {
                old(self).pages@.len() as int
            } else {
                page_num + 1
            },
            forall|j: int|
                #![trigger slot_at(final(self).slots(), j)]
                slot_at(final(self).slots(), j) == slot_at(old(self).slots(), j),
    {
        while self.pages.len() <= page_num
            invariant
                page_num < usize::MAX,
                self.page_size == old(self).page_size,
                self.file_size == old(self).file_size,
                self.page_table == old(self).page_table,
                self.dirty == old(self).dirty,
                old(self).pages@.len() <= self.pages@.len(),
                self.pages@.len() <= page_num + 1 || self.pages@.len() == old(self).pages@.len(),
                forall|j: int|
                    #![trigger slot_at(self.slots(), j)]
                    slot_at(self.slots(), j) == slot_at(old(self).slots(), j),
            decreases page_num + 1 - self.pages.len(),
        {
            let ghost before = self.slots();
            self.pages.push(None);
            assert forall|j: int|
                #![trigger slot_at(self.slots(), j)]
                slot_at(self.slots(), j) == slot_at(before, j) by {
                if 0 <= j < before.len() {
                    assert(self.slots()[j] == before[j]);
                }
            }
        }
    }
}

/// The error for a failure of the store.
fn store_failed(e: &PageStoreError) -> (err: VfsError)
    ensures
        err.kind == VfsErrorKind::Other,
        err.message@ == e.spec_text(),
{
    VfsError { kind: VfsErrorKind::Other, message: e.to_string() }
}

/// A position of the file lies in the page `pos / page_size`, at the
/// offset `pos % page_size` within it.
pub proof fn lemma_position(page: int, offset: int, page_size: int)
    requires
        0 <= offset < page_size,
    ensures
        (page * page_size + offset) / page_size == page,
        (page * page_size + offset) % page_size == offset,
{
    vstd::arithmetic::div_mod::lemma_fundamental_div_mod_converse(
        page * page_size + offset,
        page_size,
        page,
        offset,
    );
}

/// What can be read stays readable when the store takes in more pages.
pub proof fn lemma_readable_grows(
    slots: Seq<Option<Seq<u8>>>,
    table: Seq<Option<Cid>>,
    page_size: int,
    fewer: Set<Seq<u8>>,
    more: Set<Seq<u8>>,
    pos: int,
    byte: u8,
)
    requires
        fewer.subset_of(more),
        readable(slots, table, page_size, fewer, pos, byte),
    ensures
        readable(slots, table, page_size, more, pos, byte),
{
    let image = choose|image: Seq<u8>|
        #[trigger] page_image(slots, table, page_size, fewer, pos / page_size, image) && byte
            == crate::bytes::byte_or_zero(image, pos % page_size);
    assert(page_image(slots, table, page_size, more, pos / page_size, image));
}

/// What a write left in a page stays a possible result when the store
/// takes in more pages.
pub proof fn lemma_written_grows(
    slots: Seq<Option<Seq<u8>>>,
    table: Seq<Option<Cid>>,
    page_size: int,
    fewer: Set<Seq<u8>>,
    more: Set<Seq<u8>>,
    data: Seq<u8>,
    offset: int,
    page_num: int,
    result: Seq<u8>,
)
    requires
        fewer.subset_of(more),
        written_slot(slots, table, page_size, fewer, data, offset, page_num, result),
    ensures
        written_slot(slots, table, page_size, more, data, offset, page_num, result),
{
    let base = choose|base: Seq<u8>|
        #[trigger] write_base(slots, table, page_size, fewer, page_num, base) && result == overlay(
            crate::bytes::padded(base, page_size as nat),
            segment_start(offset, page_size, page_num),
            segment(data, offset, page_size, page_num),
        );
    assert(write_base(slots, table, page_size, more, page_num, base));
}

/// Whether `n` is a page size.
pub fn is_page_size(n: usize) -> (r: bool)
    ensures
        r == valid_page_size(n as int),
{
    n == 512 || n == 1024 || n == 2048 || n == 4096 || n == 8192 || n == 16384 || n == 32768 || n
        == 65536
}

/// `base`, filled to `page_size` bytes with zeros, with `seg` written over
/// it from index `at` on.
pub fn write_into_page(base: Vec<u8>, page_size: usize, at: usize, seg: &[u8]) -> (page: Vec<u8>)
    requires
        at + seg@.len() <= page_size,
    ensures
        page@ == overlay(crate::bytes::padded(base@, page_size as nat), at as int, seg@),
{
    let mut page = base;
    if page.len() < page_size {
        let missing = page_size - page.len();
        crate::bytes::append_zeros(&mut page, missing);
    }
    let ghost full = page@;
    assert(full == crate::bytes::padded(base@, page_size as nat));
    let mut k: usize = 0;
    while k < seg.len()
        invariant
            k <= seg@.len(),
            at + seg@.len() <= page_size,
            page_size <= full.len(),
            page@.len() == full.len(),
            forall|o: int|
                0 <= o < page@.len() ==> #[trigger] page@[o] == if at <= o < at + k {
                    seg@[o - at]
                } else {
                    full[o]
                },
        decreases seg@.len() - k,
    {
        page[at + k] = seg[k];
        k += 1;
    }
    assert(page@ =~= overlay(full, at as int, seg@));
    page
}

/// The table once the buffered pages among the first `n` slots are
/// committed: each buffered page's number maps to the identifier of its
/// bytes, in ascending page order.
pub open spec fn synced_upto(table: Seq<Option<Cid>>, slots: Seq<Option<Seq<u8>>>, n: nat) -> Seq<
    Option<Cid>,
>
    decreases n,
{
    if n == 0 {
        table
    } else {
        let before = synced_upto(table, slots, (n - 1) as nat);
        match slot_at(slots, n - 1) {
            Some(data) => crate::page_table::with_entry(before, n - 1, Cid::of(data)),
            None => before,
        }
    }
}

/// The table once every buffered page is committed.
pub open spec fn synced_table(table: Seq<Option<Cid>>, slots: Seq<Option<Seq<u8>>>) -> Seq<
    Option<Cid>,
> {
    synced_upto(table, slots, slots.len())
}

/// The number of pages that a file of `size` bytes takes: `size` divided by
/// the page size, rounded up.
pub open spec fn pages_for(size: int, page_size: int) -> int {
    (size + page_size - 1) / page_size
}

/// The first `n` items of a sequence, all of them where it has fewer.
pub open spec fn first_items<T>(s: Seq<T>, n: int) -> Seq<T> {
    if n < s.len() {
        s.subrange(0, n)
    } else {
        s
    }
}

/// The entry of a page once the buffered pages among the first `n` slots
/// are committed: the identifier of the buffered bytes if the page is
/// among them, its entry as it was if not.
pub proof fn lemma_synced_entry(
    table: Seq<Option<Cid>>,
    slots: Seq<Option<Seq<u8>>>,
    n: nat,
    page_num: int,
)
    ensures
        crate::page_table::entry_at(synced_upto(table, slots, n), page_num) == if 0 <= page_num < n
            && slot_at(slots, page_num) is Some {
            Some(Cid::of(slot_at(slots, page_num)->0))
        } else {
            crate::page_table::entry_at(table, page_num)
        },
    decreases n,
{
    if n > 0 {
        lemma_synced_entry(table, slots, (n - 1) as nat, page_num);
    }
}

/// After a commit the store serves every page that was buffered: where
/// `data` was buffered and the store, asked for the identifier that the
/// committed table gives the page, answers with `got`, the two are the
/// same bytes, unless the store holds two pages with the same digest.
/// `held` is what the store holds after the commit, `read` what it holds
/// after the answer.
pub proof fn law_committed_pages_are_served(
    table: Seq<Option<Cid>>,
    slots: Seq<Option<Seq<u8>>>,
    page_num: int,
    held: Set<Seq<u8>>,
    read: Set<Seq<u8>>,
    got: Seq<u8>,
)
    requires
        0 <= page_num < slots.len(),
        slots[page_num] is Some,
        held.contains(slots[page_num]->0),
        held.subset_of(read),
        read.contains(got),
        crate::page_table::entry_at(synced_table(table, slots), page_num) == Some(Cid::of(got)),
        crate::store::digests_distinct(read),
    ensures
        got == slots[page_num]->0,
{
    lemma_synced_entry(table, slots, slots.len(), page_num);
    assert(read.contains(slots[page_num]->0));
}

/// A read finds what was written: once `data` has been written at
/// `offset`, every byte that can be read at a position of the write is the
/// byte of `data` for that position. `after` is the buffer that the write
/// leaves, `before` the one that it found.
pub proof fn law_read_finds_what_was_written(
    before: Seq<Option<Seq<u8>>>,
    after: Seq<Option<Seq<u8>>>,
    table: Seq<Option<Cid>>,
    page_size: int,
    held: Set<Seq<u8>>,
    read: Set<Seq<u8>>,
    data: Seq<u8>,
    offset: int,
    pos: int,
    byte: u8,
)
    requires
        valid_page_size(page_size),
        0 <= offset <= pos < offset + data.len(),
        holds_written(after, before, table, page_size, held, data, offset, pos / page_size),
        readable(after, table, page_size, read, pos, byte),
    ensures
        byte == data[pos - offset],
{
    let page_num = pos / page_size;
    let at = pos % page_size;
    vstd::arithmetic::div_mod::lemma_fundamental_div_mod(pos, page_size);
    assert(page_size * page_num == page_num * page_size) by (nonlinear_arith);
    assert((page_num + 1) * page_size == page_num * page_size + page_size) by (nonlinear_arith);
    let result = slot_at(after, page_num)->0;
    let base = choose|base: Seq<u8>|
        #[trigger] write_base(before, table, page_size, held, page_num, base) && result == overlay(
            crate::bytes::padded(base, page_size as nat),
            segment_start(offset, page_size, page_num),
            segment(data, offset, page_size, page_num),
        );
    let image = choose|image: Seq<u8>|
        #[trigger] page_image(after, table, page_size, read, pos / page_size, image) && byte
            == crate::bytes::byte_or_zero(image, pos % page_size);
    assert(image == result);
    assert(result.len() >= page_size);
}

/// An open database file: the connection's buffer and its lock.
#[derive(Debug)]
pub struct CraftDbHandle {
    pub buffer: PageBuffer,
    pub lock: LockKind,
}

impl CraftDbHandle {
    /// The handle's invariant: that of its buffer.
    pub open spec fn wf(&self) -> bool {
        self.buffer.wf()
    }

    /// The size of the file as the engine sees it.
    pub fn size(&self) -> (n: u64)
        ensures
            n == self.buffer.file_size,
    {
        self.buffer.file_size
    }

    /// The bytes of one page for a read: the buffered bytes, else the page
    /// that the store gives for the table's identifier, else a page of
    /// zeros. Only the store can fail, and it is asked only for a page that
    /// is in the table and not in the buffer.
    pub fn read_page<S: PageStore>(&self, store: &mut S, page_num: u64) -> (res: Result<
        Vec<u8>,
        VfsError,
    >)
        requires
            self.wf(),
            old(store).wf(),
        ensures
            final(store).wf(),
            old(store).pages().subset_of(final(store).pages()),
            final(store).root() == old(store).root(),
            final(store).named() == old(store).named(),
            res matches Ok(data) ==> page_image(
                self.buffer.slots(),
                self.buffer.page_table@,
                self.buffer.page_size as int,
                final(store).pages(),
                page_num as int,
                data@,
            ),
            res matches Err(e) ==> e.kind == VfsErrorKind::Other && refused_page(
                self.buffer.slots(),
                self.buffer.page_table@,
                final(store).refused(),
                page_num as int,
                page_num as int,
            ),
            slot_at(self.buffer.slots(), page_num as int) is Some || crate::page_table::entry_at(
                self.buffer.page_table@,
                page_num as int,
            ) is None ==> res is Ok && *final(store) == *old(store),
    {
        if page_num < self.buffer.pages.len() as u64 {
            let index = page_num as usize;
            assert(self.buffer.slots()[index as int] == slot_at(self.buffer.slots(), page_num as int));
            if let Some(data) = &self.buffer.pages[index] {
                return Ok(copy_bytes(data.as_slice()));
            }
        }
        if page_num < self.buffer.page_table.len() as u64 {
            if let Some(cid) = self.buffer.page_table.get(page_num as usize) {
                return match store.get(cid) {
                    Ok(page) => Ok(page.data),
                    Err(e) => Err(store_failed(&e)),
                };
            }
        }
        Ok(zero_bytes(self.buffer.page_size))
    }

    /// Fills `out` with the bytes of the file from `offset` on. Each byte
    /// comes from its page's image, and is zero past the image's end.
    pub fn read_exact_at<S: PageStore>(&self, store: &mut S, out: &mut [u8], offset: u64) -> (res:
        Result<(), VfsError>)
        requires
            self.wf(),
            old(store).wf(),
        ensures
            final(store).wf(),
            old(store).pages().subset_of(final(store).pages()),
            final(store).root() == old(store).root(),
            final(store).named() == old(store).named(),
            final(out)@.len() == old(out)@.len(),
            res is Ok ==> forall|k: int|
                0 <= k < final(out)@.len() ==> readable(
                    self.buffer.slots(),
                    self.buffer.page_table@,
                    self.buffer.page_size as int,
                    final(store).pages(),
                    offset + k,
                    #[trigger] final(out)@[k],
                ),
            res matches Err(e) ==> e.kind == VfsErrorKind::Other && refused_page(
                self.buffer.slots(),
                self.buffer.page_table@,
                final(store).refused(),
                offset as int / self.buffer.page_size as int,
                (offset + old(out)@.len() - 1) / self.buffer.page_size as int,
            ),
            needs_no_store(
                self.buffer.slots(),
                self.buffer.page_table@,
                self.buffer.page_size as int,
                offset as int,
                old(out)@.len() as int,
            ) ==> res is Ok,
    {
        let page_size = self.buffer.page_size;
        let ghost slots = self.buffer.slots();
        let ghost table = self.buffer.page_table@;
        let total = out.len();
        let mut bytes_read: usize = 0;
        let mut current_page: u64 = offset / (page_size as u64);
        let mut current_offset: usize = (offset % (page_size as u64)) as usize;
        proof {
            vstd::arithmetic::div_mod::lemma_fundamental_div_mod(offset as int, page_size as int);
            assert(offset == page_size * (offset as int / page_size as int) + offset as int % page_size as int);
            assert(page_size * (offset as int / page_size as int) == (offset as int / page_size as int) * page_size) by (nonlinear_arith);
        }
        while bytes_read < total
            invariant
                self.wf(),
                store.wf(),
                page_size == self.buffer.page_size,
                slots == self.buffer.slots(),
                table == self.buffer.page_table@,
                total == out@.len(),
                total == old(out)@.len(),
                bytes_read <= total,
                old(store).pages().subset_of(store.pages()),
                store.root() == old(store).root(),
                store.named() == old(store).named(),
                current_offset < page_size,
                offset + bytes_read == current_page * page_size + current_offset,
                forall|k: int|
                    0 <= k < bytes_read ==> readable(
                        slots,
                        table,
                        page_size as int,
                        store.pages(),
                        offset + k,
                        #[trigger] out@[k],
                    ),
                needs_no_store(slots, table, page_size as int, offset as int, total as int) ==> *store == *old(store),
            decreases total - bytes_read,
        {
            let remaining = total - bytes_read;
            let available = page_size - current_offset;
            let to_read = if remaining < available { remaining } else { available };
            let ghost pages_before = store.pages();
            proof {
                lemma_position(current_page as int, current_offset as int, page_size as int);
            }
            let page_data = match self.read_page(store, current_page) {
                Ok(data) => data,
                Err(e) => {
                    proof {
                        vstd::arithmetic::div_mod::lemma_div_is_ordered(
                            offset as int,
                            (offset + bytes_read) as int,
                            page_size as int,
                        );
                        vstd::arithmetic::div_mod::lemma_div_is_ordered(
                            (offset + bytes_read) as int,
                            (offset + total - 1) as int,
                            page_size as int,
                        );
                        if needs_no_store(slots, table, page_size as int, offset as int, total as int) {
                            let pos = offset + bytes_read;
                            assert(slot_at(slots, pos / (page_size as int)) is Some
                                || crate::page_table::entry_at(table, pos / (page_size as int)) is None);
                        }
                    }
                    return Err(e);
                },
            };
            proof {
                assert forall|k: int| 0 <= k < bytes_read implies readable(
                    slots,
                    table,
                    page_size as int,
                    store.pages(),
                    offset + k,
                    #[trigger] out@[k],
                ) by {
                    lemma_readable_grows(
                        slots,
                        table,
                        page_size as int,
                        pages_before,
                        store.pages(),
                        offset + k,
                        out@[k],
                    );
                }
                if needs_no_store(slots, table, page_size as int, offset as int, total as int) {
                    let pos = offset + bytes_read;
                    assert(slot_at(slots, pos / (page_size as int)) is Some
                        || crate::page_table::entry_at(table, pos / (page_size as int)) is None);
                }
            }
            let mut k: usize = 0;
            while k < to_read
                invariant
                    k <= to_read,
                    to_read <= total - bytes_read,
                    to_read <= page_size - current_offset,
                    current_offset < page_size,
                    valid_page_size(page_size as int),
                    total == out@.len(),
                    offset + bytes_read == current_page * page_size + current_offset,
                    page_image(slots, table, page_size as int, store.pages(), current_page as int, page_data@),
                    forall|i: int|
                        0 <= i < bytes_read + k ==> readable(
                            slots,
                            table,
                            page_size as int,
                            store.pages(),
                            offset + i,
                            #[trigger] out@[i],
                        ),
                decreases to_read - k,
            {
                let at = current_offset + k;
                let byte = if at < page_data.len() { page_data[at] } else { 0u8 };
                let ghost before = out@;
                out[bytes_read + k] = byte;
                proof {
                    lemma_position(current_page as int, at as int, page_size as int);
                    assert forall|i: int| 0 <= i < bytes_read + k + 1 implies readable(
                        slots,
                        table,
                        page_size as int,
                        store.pages(),
                        offset + i,
                        #[trigger] out@[i],
                    ) by {
                        if i < bytes_read + k {
                            assert(out@[i] == before[i]);
                        } else {
                            assert(offset + i == current_page * page_size + at);
                            assert(byte == crate::bytes::byte_or_zero(page_data@, at as int));
                        }
                    }
                }
                k += 1;
            }
            proof {
                assert((current_page + 1) * page_size == current_page * page_size + page_size)
                    by (nonlinear_arith);
                assert(current_page < u64::MAX) by (nonlinear_arith)
                    requires
                        current_page * page_size <= 2 * u64::MAX,
                        page_size >= 512,
                ;
            }
            bytes_read += to_read;
            if to_read == available {
                current_page += 1;
                current_offset = 0;
            } else {
                current_offset += to_read;
            }
        }
        Ok(())
    }

    /// The page size that takes effect when `data` is written at `offset`.
    pub fn detect_page_size(&self, data: &[u8], offset: u64) -> (page_size: usize)
        requires
            self.wf(),
        ensures
            page_size == page_size_after_write(
                self.buffer.page_size as int,
                self.buffer.page_table@,
                offset as int,
                data@,
            ),
            valid_page_size(page_size as int),
    {
        if offset == 0 && self.buffer.page_table.is_empty() && data.len() >= 100 {
            let announced: usize = (data[16] as usize) * 256 + (data[17] as usize);
            if is_page_size(announced) {
                return announced;
            }
        }
        self.buffer.page_size
    }

    /// The bytes that a write finds as page `page_num`: the buffered bytes,
    /// else the page that the store gives for the table's identifier, else
    /// a page of zeros. Only the store can fail, and it is asked only for a
    /// page that is in the table and not in the buffer.
    pub fn load_for_write<S: PageStore>(&self, store: &mut S, page_num: usize) -> (res: Result<
        Vec<u8>,
        VfsError,
    >)
        requires
            self.wf(),
            old(store).wf(),
        ensures
            final(store).wf(),
            old(store).pages().subset_of(final(store).pages()),
            final(store).root() == old(store).root(),
            final(store).named() == old(store).named(),
            res matches Ok(base) ==> write_base(
                self.buffer.slots(),
                self.buffer.page_table@,
                self.buffer.page_size as int,
                final(store).pages(),
                page_num as int,
                base@,
            ),
            res matches Err(e) ==> e.kind == VfsErrorKind::Other && refused_page(
                self.buffer.slots(),
                self.buffer.page_table@,
                final(store).refused(),
                page_num as int,
                page_num as int,
            ),
            slot_at(self.buffer.slots(), page_num as int) is Some || crate::page_table::entry_at(
                self.buffer.page_table@,
                page_num as int,
            ) is None ==> res is Ok && *final(store) == *old(store),
    {
        if page_num < self.buffer.pages.len() {
            assert(self.buffer.slots()[page_num as int] == slot_at(
                self.buffer.slots(),
                page_num as int,
            ));
            if let Some(data) = &self.buffer.pages[page_num] {
                return Ok(copy_bytes(data.as_slice()));
            }
        }
        if let Some(cid) = self.buffer.page_table.get(page_num) {
            return match store.get(cid) {
                Ok(page) => Ok(page.data),
                Err(e) => Err(store_failed(&e)),
            };
        }
        Ok(zero_bytes(self.buffer.page_size))
    }

    /// Writes `data` into the buffer at `offset`. The first write of a new
    /// database sets the page size from the header. Each page that the write
    /// touches is then buffered whole, with its part of `data` over what
    /// was there; the file grows to the end of the write, and the buffer is
    /// dirty. A write that this machine cannot address is refused before
    /// anything changes. A store that fails to give a page that the write
    /// needs ends the write with its error: the pages before that one are
    /// written, the others and the file's size are as they were.
    pub fn write_all_at<S: PageStore>(&mut self, store: &mut S, data: &[u8], offset: u64) -> (res:
        Result<(), VfsError>)
        requires
            old(self).wf(),
            old(store).wf(),
        ensures
            final(self).wf(),
            final(store).wf(),
            old(store).pages().subset_of(final(store).pages()),
            final(store).root() == old(store).root(),
            final(store).named() == old(store).named(),
            final(self).lock == old(self).lock,
            final(self).buffer.page_table == old(self).buffer.page_table,
            write_out_of_reach(
                offset as int,
                data@.len() as int,
                page_size_after_write(
                    old(self).buffer.page_size as int,
                    old(self).buffer.page_table@,
                    offset as int,
                    data@,
                ),
            ) ==> res is Err && res->Err_0.kind == VfsErrorKind::InvalidInput && *final(self)
                == *old(self) && *final(store) == *old(store),
            res matches Err(e) ==> {
                let page_size = page_size_after_write(
                    old(self).buffer.page_size as int,
                    old(self).buffer.page_table@,
                    offset as int,
                    data@,
                );
                let first = offset as int / page_size;
                let last = (offset + data@.len() - 1) / page_size;
                ||| e.kind == VfsErrorKind::InvalidInput && write_out_of_reach(
                    offset as int,
                    data@.len() as int,
                    page_size,
                )
                ||| {
                    &&& e.kind == VfsErrorKind::Other
                    &&& data@.len() > 0
                    &&& refused_page(
                        old(self).buffer.slots(),
                        old(self).buffer.page_table@,
                        final(store).refused(),
                        first,
                        last,
                    )
                    &&& final(self).buffer.page_size == page_size
                    &&& final(self).buffer.file_size == old(self).buffer.file_size
                    &&& forall|j: int|
                        #![trigger slot_at(final(self).buffer.slots(), j)]
                        slot_at(final(self).buffer.slots(), j) == slot_at(
                            old(self).buffer.slots(),
                            j,
                        ) || holds_written(
                            final(self).buffer.slots(),
                            old(self).buffer.slots(),
                            old(self).buffer.page_table@,
                            page_size,
                            final(store).pages(),
                            data@,
                            offset as int,
                            j,
                        )
                }
            },
            !write_out_of_reach(
                offset as int,
                data@.len() as int,
                page_size_after_write(
                    old(self).buffer.page_size as int,
                    old(self).buffer.page_table@,
                    offset as int,
                    data@,
                ),
            ) && needs_no_store(
                old(self).buffer.slots(),
                old(self).buffer.page_table@,
                page_size_after_write(
                    old(self).buffer.page_size as int,
                    old(self).buffer.page_table@,
                    offset as int,
                    data@,
                ),
                offset as int,
                data@.len() as int,
            ) ==> res is Ok,
            res is Ok ==> {
                let page_size = page_size_after_write(
                    old(self).buffer.page_size as int,
                    old(self).buffer.page_table@,
                    offset as int,
                    data@,
                );
                let first = offset as int / page_size;
                let end = offset + data@.len();
                &&& final(self).buffer.page_size == page_size
                &&& final(self).buffer.file_size == if old(self).buffer.file_size >= end {
                    old(self).buffer.file_size as int
                } else {
                    end
                }
                &&& final(self).buffer.dirty == (old(self).buffer.dirty || data@.len() > 0)
                &&& data@.len() == 0 ==> final(self).buffer.slots() == old(self).buffer.slots()
                &&& data@.len() > 0 ==> {
                    let last = (end - 1) / page_size;
                    &&& final(self).buffer.slots().len() == if last < old(self).buffer.slots().len() {
                        old(self).buffer.slots().len() as int
                    } else {
                        last + 1
                    }
                    &&& forall|j: int|
                        j < first || last < j ==> #[trigger] slot_at(final(self).buffer.slots(), j)
                            == slot_at(old(self).buffer.slots(), j)
                    &&& forall|j: int|
                        first <= j <= last ==> #[trigger] holds_written(
                            final(self).buffer.slots(),
                            old(self).buffer.slots(),
                            old(self).buffer.page_table@,
                            page_size,
                            final(store).pages(),
                            data@,
                            offset as int,
                            j,
                        )
                }
            },
    {
        let page_size = self.detect_page_size(data, offset);
        let len = data.len();
        let end: u64 = match offset.checked_add(len as u64) {
            Some(end) => end,
            None => {
                return Err(
                    VfsError {
                        kind: VfsErrorKind::InvalidInput,
                        message: owned("write past the largest offset"),
                    },
                );
            },
        };
        if len > 0 && (end - 1) / (page_size as u64) >= usize::MAX as u64 {
            return Err(
                VfsError {
                    kind: VfsErrorKind::InvalidInput,
                    message: owned("write past the largest page"),
                },
            );
        }
        self.buffer.page_size = page_size;
        let ghost slots0 = old(self).buffer.slots();
        let ghost table = old(self).buffer.page_table@;
        let ghost first = offset as int / page_size as int;
        assert(self.buffer.slots() == slots0);
        if len == 0 {
            if end > self.buffer.file_size {
                self.buffer.file_size = end;
            }
            return Ok(());
        }
        let ghost last = (end - 1) as int / page_size as int;
        let mut written: usize = 0;
        let mut current_page: usize = (offset / (page_size as u64)) as usize;
        let mut current_offset: usize = (offset % (page_size as u64)) as usize;
        let ghost mut done: int = first;
        proof {
            vstd::arithmetic::div_mod::lemma_fundamental_div_mod(offset as int, page_size as int);
            assert(page_size * (offset as int / page_size as int) == (offset as int / page_size as int) * page_size) by (nonlinear_arith);
            vstd::arithmetic::div_mod::lemma_div_is_ordered(
                offset as int,
                (end - 1) as int,
                page_size as int,
            );
        }
        while written < len
            invariant
                self.wf(),
                store.wf(),
                len == data@.len(),
                len > 0,
                end == offset + len,
                page_size == self.buffer.page_size,
                page_size as int == page_size_after_write(
                    old(self).buffer.page_size as int,
                    old(self).buffer.page_table@,
                    offset as int,
                    data@,
                ),
                !write_out_of_reach(offset as int, data@.len() as int, page_size as int),
                valid_page_size(page_size as int),
                first == offset as int / page_size as int,
                last == (end - 1) as int / page_size as int,
                last < usize::MAX,
                slots0 == old(self).buffer.slots(),
                table == old(self).buffer.page_table@,
                self.buffer.page_table == old(self).buffer.page_table,
                self.buffer.file_size == old(self).buffer.file_size,
                self.buffer.dirty == (old(self).buffer.dirty || written > 0),
                self.lock == old(self).lock,
                old(store).pages().subset_of(store.pages()),
                store.root() == old(store).root(),
                store.named() == old(store).named(),
                written <= len,
                current_offset < page_size,
                offset + written == current_page * page_size + current_offset,
                first <= done <= last + 1,
                written == 0 ==> done == first,
                written > 0 ==> done == (offset + written - 1) / (page_size as int) + 1,
                written < len ==> done == current_page,
                written > 0 && written < len ==> current_offset == 0,
                self.buffer.slots().len() == if done == first || done <= slots0.len() {
                    slots0.len() as int
                } else {
                    done
                },
                forall|j: int|
                    j < first || done <= j ==> #[trigger] slot_at(self.buffer.slots(), j) == slot_at(
                        slots0,
                        j,
                    ),
                forall|j: int|
                    first <= j < done ==> #[trigger] holds_written(
                        self.buffer.slots(),
                        slots0,
                        table,
                        page_size as int,
                        store.pages(),
                        data@,
                        offset as int,
                        j,
                    ),
            decreases len - written,
        {
            let remaining = len - written;
            let available = page_size - current_offset;
            let to_write = if remaining < available { remaining } else { available };
            let ghost pages_before = store.pages();
            let ghost slots_before = self.buffer.slots();
            proof {
                lemma_position(current_page as int, current_offset as int, page_size as int);
                lemma_position(
                    current_page as int,
                    (current_offset + to_write - 1) as int,
                    page_size as int,
                );
                vstd::arithmetic::div_mod::lemma_div_is_ordered(
                    (offset + written + to_write - 1) as int,
                    (end - 1) as int,
                    page_size as int,
                );
                assert(current_page <= last);
            }
            self.buffer.ensure_page(current_page);
            let ghost slots_ensured = self.buffer.slots();
            let base = match self.load_for_write(store, current_page) {
                Ok(base) => base,
                Err(e) => {
                    proof {
                        assert(slot_at(slots_ensured, current_page as int) == slot_at(
                            slots0,
                            current_page as int,
                        ));
                        if needs_no_store(
                            slots0,
                            table,
                            page_size as int,
                            offset as int,
                            len as int,
                        ) {
                            let pos = offset + written;
                            assert(slot_at(slots0, pos / (page_size as int)) is Some
                                || crate::page_table::entry_at(table, pos / (page_size as int))
                                is None);
                        }
                        assert(refused_page(
                            slots0,
                            table,
                            store.refused(),
                            first,
                            last,
                        ));
                        assert forall|j: int|
                            #![trigger slot_at(self.buffer.slots(), j)]
                            slot_at(self.buffer.slots(), j) == slot_at(slots0, j) || holds_written(
                                self.buffer.slots(),
                                slots0,
                                table,
                                page_size as int,
                                store.pages(),
                                data@,
                                offset as int,
                                j,
                            ) by {
                            assert(slot_at(slots_ensured, j) == slot_at(slots_before, j));
                            if first <= j < done {
                                assert(holds_written(
                                    slots_before,
                                    slots0,
                                    table,
                                    page_size as int,
                                    pages_before,
                                    data@,
                                    offset as int,
                                    j,
                                ));
                                let r = slot_at(slots_before, j)->0;
                                lemma_written_grows(
                                    slots0,
                                    table,
                                    page_size as int,
                                    pages_before,
                                    store.pages(),
                                    data@,
                                    offset as int,
                                    j,
                                    r,
                                );
                            }
                        }
                    }
                    return Err(e);
                },
            };
            proof {
                assert(slot_at(slots_ensured, current_page as int) == slot_at(slots0, current_page as int));
                assert(write_base(
                    slots0,
                    table,
                    page_size as int,
                    store.pages(),
                    current_page as int,
                    base@,
                ));
                assert(segment_start(offset as int, page_size as int, current_page as int) == current_offset) by {
                    if current_page * page_size <= offset {
                        assert(written == 0) by {
                            if written > 0 {
                                assert(current_offset == 0);
                            }
                        }
                    }
                }
                assert((current_page + 1) * page_size == current_page * page_size + page_size)
                    by (nonlinear_arith);
                assert(segment(data@, offset as int, page_size as int, current_page as int)
                    == data@.subrange(written as int, written + to_write));
            }
            let seg = vstd::slice::slice_subrange(data, written, written + to_write);
            let page = write_into_page(base, page_size, current_offset, seg);
            let ghost result = page@;
            self.buffer.pages[current_page] = Some(page);
            self.buffer.dirty = true;
            proof {
                assert(written_slot(
                    slots0,
                    table,
                    page_size as int,
                    store.pages(),
                    data@,
                    offset as int,
                    current_page as int,
                    result,
                ));
                assert(self.buffer.slots() =~= slots_ensured.update(current_page as int, Some(result)));
                assert forall|j: int| j < first || current_page + 1 <= j implies #[trigger] slot_at(
                    self.buffer.slots(),
                    j,
                ) == slot_at(slots0, j) by {
                    assert(slot_at(slots_ensured, j) == slot_at(slots_before, j));
                }
                assert forall|j: int| first <= j < current_page + 1 implies #[trigger] holds_written(
                    self.buffer.slots(),
                    slots0,
                    table,
                    page_size as int,
                    store.pages(),
                    data@,
                    offset as int,
                    j,
                ) by {
                    if j < current_page {
                        assert(holds_written(
                            slots_before,
                            slots0,
                            table,
                            page_size as int,
                            pages_before,
                            data@,
                            offset as int,
                            j,
                        ));
                        assert(slot_at(slots_ensured, j) == slot_at(slots_before, j));
                        let r = slot_at(slots_before, j)->0;
                        lemma_written_grows(
                            slots0,
                            table,
                            page_size as int,
                            pages_before,
                            store.pages(),
                            data@,
                            offset as int,
                            j,
                            r,
                        );
                    }
                }
                done = current_page + 1;
            }
            written += to_write;
            if to_write == available {
                current_page += 1;
                current_offset = 0;
            } else {
                current_offset += to_write;
            }
        }
        if end > self.buffer.file_size {
            self.buffer.file_size = end;
        }
        Ok(())
    }

    /// Commits the buffer. A clean buffer is left alone. Else every
    /// buffered page is stored and the table maps its number to the
    /// identifier of its bytes; the table itself is stored as a page and
    /// made the root; then the buffered pages are dropped and the buffer is
    /// clean. When the store fails, the buffered pages stay, the buffer
    /// stays dirty and the store's root is what it was.
    pub fn sync<S: PageStore>(&mut self, store: &mut S, data_only: bool) -> (res: Result<
        (),
        VfsError,
    >)
        requires
            old(self).wf(),
            old(store).wf(),
        ensures
            final(self).wf(),
            final(store).wf(),
            old(store).pages().subset_of(final(store).pages()),
            final(self).lock == old(self).lock,
            final(store).named() == old(store).named(),
            final(self).buffer.page_size == old(self).buffer.page_size,
            final(self).buffer.file_size == old(self).buffer.file_size,
            !old(self).buffer.dirty ==> res is Ok && *final(self) == *old(self) && *final(store)
                == *old(store),
            old(self).buffer.dirty && res is Ok ==> {
                let table = synced_table(old(self).buffer.page_table@, old(self).buffer.slots());
                let table_page = crate::page_table::table_encoding(
                    crate::page_table::raw_entries(table),
                );
                &&& final(self).buffer.page_table@ == table
                &&& final(self).buffer.slots() == Seq::new(
                    old(self).buffer.slots().len(),
                    |i: int| None::<Seq<u8>>,
                )
                &&& !final(self).buffer.dirty
                &&& forall|i: int|
                    0 <= i < old(self).buffer.slots().len() ==> ((#[trigger] old(
                        self,
                    ).buffer.slots()[i]) matches Some(data) ==> final(store).pages().contains(data)
                        && crate::page_table::entry_at(table, i) == Some(Cid::of(data)))
                &&& final(store).pages().contains(table_page)
                &&& final(store).root() == crate::store::root_value(Cid::of(table_page))
            },
            res matches Err(e) ==> {
                &&& e.kind == VfsErrorKind::Other
                &&& final(store).root() == old(store).root()
                &&& final(self).buffer.slots() == old(self).buffer.slots()
                &&& final(self).buffer.dirty
                &&& (final(self).buffer.page_table@ == old(self).buffer.page_table@
                    || final(self).buffer.page_table@ == synced_table(
                    old(self).buffer.page_table@,
                    old(self).buffer.slots(),
                ))
            },
    {
        if !self.buffer.dirty {
            return Ok(());
        }
        let ghost slots = self.buffer.slots();
        let ghost table0 = self.buffer.page_table@;
        let mut table = self.buffer.page_table.copy();
        let count = self.buffer.pages.len();
        let mut i: usize = 0;
        while i < count
            invariant
                i <= count,
                count == self.buffer.pages@.len(),
                *self == *old(self),
                self.wf(),
                self.buffer.dirty,
                slots == self.buffer.slots(),
                table0 == self.buffer.page_table@,
                store.wf(),
                old(store).pages().subset_of(store.pages()),
                store.root() == old(store).root(),
                store.named() == old(store).named(),
                table@ == synced_upto(table0, slots, i as nat),
                forall|k: int|
                    0 <= k < i ==> ((#[trigger] slots[k]) matches Some(data) ==> store.pages().contains(
                        data,
                    )),
            decreases count - i,
        {
            assert(slots[i as int] == slot_at(slots, i as int));
            if let Some(data) = &self.buffer.pages[i] {
                let page = Page { data: copy_bytes(data.as_slice()) };
                match store.put(&page) {
                    Ok(cid) => {
                        table.set(i, cid);
                    },
                    Err(e) => {
                        return Err(store_failed(&e));
                    },
                }
            }
            i += 1;
        }
        self.buffer.page_table = table;
        assert(self.buffer.slots() == slots);
        let table_page = Page { data: self.buffer.page_table.to_bytes() };
        let root = match store.put(&table_page) {
            Ok(cid) => cid,
            Err(e) => {
                return Err(store_failed(&e));
            },
        };
        match store.update_root(root) {
            Ok(()) => {},
            Err(e) => {
                return Err(store_failed(&e));
            },
        }
        let mut j: usize = 0;
        while j < count
            invariant
                j <= count,
                count == self.buffer.pages@.len(),
                count == slots.len(),
                self.lock == old(self).lock,
                self.buffer.page_size == old(self).buffer.page_size,
                self.buffer.file_size == old(self).buffer.file_size,
                self.buffer.page_table@ == synced_upto(table0, slots, count as nat),
                forall|k: int| 0 <= k < j ==> self.buffer.pages@[k] is None,
            decreases count - j,
        {
            self.buffer.pages[j] = None;
            j += 1;
        }
        self.buffer.dirty = false;
        proof {
            assert(self.buffer.slots() =~= Seq::new(slots.len(), |i: int| None::<Seq<u8>>));
            assert forall|i: int| 0 <= i < slots.len() implies ((#[trigger] slots[i]) matches Some(
                data,
            ) ==> crate::page_table::entry_at(synced_table(table0, slots), i) == Some(
                Cid::of(data),
            )) by {
                lemma_synced_entry(table0, slots, slots.len(), i);
            }
        }
        Ok(())
    }

    /// Sets the file's size: the buffer and the table keep the pages that a
    /// file of that size takes, and the buffer is dirty.
    pub fn set_len(&mut self, size: u64)
        requires
            old(self).wf(),
        ensures
            final(self).wf(),
            final(self).lock == old(self).lock,
            final(self).buffer.page_size == old(self).buffer.page_size,
            final(self).buffer.file_size == size,
            final(self).buffer.dirty,
            final(self).buffer.slots() == first_items(
                old(self).buffer.slots(),
                pages_for(size as int, old(self).buffer.page_size as int),
            ),
            final(self).buffer.page_table@ == first_items(
                old(self).buffer.page_table@,
                pages_for(size as int, old(self).buffer.page_size as int),
            ),
    {
        let page_size = self.buffer.page_size as u64;
        let whole = size / page_size;
        let page_count: u64 = if size % page_size == 0 { whole } else { whole + 1 };
        proof {
            let ps = page_size as int;
            vstd::arithmetic::div_mod::lemma_fundamental_div_mod(size as int, ps);
            assert(ps * (size as int / ps) == (size as int / ps) * ps) by (nonlinear_arith);
            if size % page_size == 0 {
                lemma_position(whole as int, ps - 1, ps);
            } else {
                assert((whole + 1) * ps == whole * ps + ps) by (nonlinear_arith);
                lemma_position(whole as int + 1, (size as int % ps) - 1, ps);
            }
            assert(page_count == pages_for(size as int, ps));
        }
        let ghost slots = self.buffer.slots();
        self.buffer.file_size = size;
        if page_count < self.buffer.pages.len() as u64 {
            self.buffer.pages.truncate(page_count as usize);
        }
        if page_count < self.buffer.page_table.len() as u64 {
            self.buffer.page_table.truncate(page_count as usize);
        }
        self.buffer.dirty = true;
        assert(self.buffer.slots() =~= first_items(slots, page_count as int));
    }

    /// Records the lock that the engine asks for. There is one writer, so
    /// every request is granted.
    pub fn lock(&mut self, lock: LockKind) -> (granted: bool)
        ensures
            granted,
            final(self).lock == lock,
            final(self).buffer == old(self).buffer,
    {
        self.lock = lock;
        true
    }

    /// Whether another connection holds a reserved lock: never.
    pub fn reserved(&self) -> (r: bool)
        ensures
            !r,
    {
        false
    }

    /// The lock that was last recorded.
    pub fn current_lock(&self) -> (lock: LockKind)
        ensures
            lock == self.lock,
    {
        self.lock
    }
}

/// Whether `suffix` ends `text`.
pub open spec fn is_suffix(suffix: Seq<char>, text: Seq<char>) -> bool {
    suffix.len() <= text.len() && text.subrange(text.len() - suffix.len(), text.len() as int)
        == suffix
}

/// Whether a file name is that of a journal, a write-ahead log or its
/// shared memory: files that go with a database and are not stored.
pub open spec fn auxiliary_name(name: Seq<char>) -> bool {
    is_suffix("-journal"@, name) || is_suffix("-wal"@, name) || is_suffix("-shm"@, name)
}

/// Whether `suffix` is a suffix of the text.
fn ends_with(text: &str, suffix: &str) -> (r: bool)
    ensures
        r == is_suffix(suffix@, text@),
{
    let len = text.unicode_len();
    let wanted = suffix.unicode_len();
    if wanted > len {
        return false;
    }
    let tail = text.substring_char(len - wanted, len);
    let mut i: usize = 0;
    while i < wanted
        invariant
            i <= wanted,
            wanted == suffix@.len(),
            wanted <= len,
            len == text@.len(),
            tail@ == text@.subrange(len - wanted, len as int),
            forall|k: int| 0 <= k < i ==> tail@[k] == suffix@[k],
        decreases wanted - i,
    {
        if tail.get_char(i) != suffix.get_char(i) {
            return false;
        }
        i += 1;
    }
    assert(tail@ =~= suffix@);
    true
}

/// `uuid::Uuid::new_v4` in the hyphenated form that its `Display` gives:
/// 36 characters, different at each call.
#[verifier::external_body]
fn fresh_uuid() -> (text: String)
    ensures
        text@.len() == 36,
{
    uuid::Uuid::new_v4().to_string()
}

/// The page size of a database whose first page has `len` bytes: `len`
/// where that is a page size, the default otherwise.
pub open spec fn page_size_from(len: int) -> int {
    if valid_page_size(len) {
        len
    } else {
        DEFAULT_PAGE_SIZE as int
    }
}

/// Whether a database with this table and page size is what opening finds
/// in a store with the given root and pages: without a root an empty table
/// at the default page size, unless the access is read-only; with a root
/// the table that a page with the root's identifier holds, at the page size
/// that the first page shows.
pub open spec fn opened(
    root: Option<Cid>,
    pages: Set<Seq<u8>>,
    access: OpenAccess,
    table: Seq<Option<Cid>>,
    page_size: int,
) -> bool {
    match root {
        None => access != OpenAccess::Read && table.len() == 0 && page_size == DEFAULT_PAGE_SIZE,
        Some(cid) => {
            &&& exists|page: Seq<u8>|
                #![trigger pages.contains(page)]
                pages.contains(page) && cid == Cid::of(page) && crate::page_table::table_decoding(page)
                    == Some(crate::page_table::raw_entries(table))
            &&& match crate::page_table::entry_at(table, 0) {
                Some(first) => exists|page: Seq<u8>|
                    #![trigger pages.contains(page)]
                    pages.contains(page) && first == Cid::of(page) && page_size == page_size_from(
                        page.len() as int,
                    ),
                None => page_size == DEFAULT_PAGE_SIZE,
            }
        },
    }
}

/// Whether the root names a page that holds no table that can be opened:
/// the page does not read as a table, or the table has more pages than a
/// file of the largest page size can have bytes for.
pub open spec fn unreadable_root(root: Option<Cid>, pages: Set<Seq<u8>>) -> bool {
    root matches Some(cid) && exists|page: Seq<u8>|
        #![trigger pages.contains(page)]
        {
            &&& pages.contains(page)
            &&& cid == Cid::of(page)
            &&& match crate::page_table::table_decoding(page) {
                Some(table) => table.len() * 65536 > u64::MAX,
                None => true,
            }
        }
}

/// The table of a database that has no root yet: none for a read-only
/// open, which finds no database; the empty table otherwise.
pub fn table_without_root(access: OpenAccess) -> (res: Result<PageTable, VfsError>)
    ensures
        access == OpenAccess::Read ==> (res matches Err(e) && e.kind == VfsErrorKind::NotFound
            && e.message@ == "database not found"@),
        access != OpenAccess::Read ==> (res matches Ok(table) && table@.len() == 0),
{
    if access == OpenAccess::Read {
        return Err(VfsError { kind: VfsErrorKind::NotFound, message: owned("database not found") });
    }
    Ok(PageTable::new())
}

/// The table that the root's page holds: invalid data where the page does
/// not read as a table.
pub fn table_of_root(data: &[u8]) -> (res: Result<PageTable, VfsError>)
    ensures
        res is Ok <==> crate::page_table::table_decoding(data@) is Some,
        res matches Ok(table) ==> crate::page_table::raw_entries(table@)
            == crate::page_table::table_decoding(data@)->0,
        res matches Err(e) ==> e.kind == VfsErrorKind::InvalidData,
{
    match PageTable::from_bytes(data) {
        Ok(table) => Ok(table),
        Err(e) => Err(
            VfsError {
                kind: VfsErrorKind::InvalidData,
                message: crate::page_table::bincode_error_text(&e),
            },
        ),
    }
}

/// The page size of a database whose first page, if it has one, has
/// `first_len` bytes.
pub open spec fn page_size_shown(first_len: Option<usize>) -> int {
    match first_len {
        Some(len) => page_size_from(len as int),
        None => DEFAULT_PAGE_SIZE as int,
    }
}

/// A clean, unlocked handle over a table, at the page size that the first
/// page shows: invalid data where a file of that many pages has more bytes
/// than a file size can say.
pub fn handle_for(table: PageTable, first_len: Option<usize>) -> (res: Result<
    CraftDbHandle,
    VfsError,
>)
    ensures
        res is Ok <==> table@.len() * page_size_shown(first_len) <= u64::MAX,
        res matches Ok(handle) ==> {
            &&& handle.wf()
            &&& handle.lock == LockKind::Unlocked
            &&& handle.buffer.page_table == table
            &&& handle.buffer.page_size == page_size_shown(first_len)
            &&& handle.buffer.file_size == table@.len() * page_size_shown(first_len)
            &&& !handle.buffer.dirty
            &&& handle.buffer.slots() == Seq::new(table@.len(), |i: int| None::<Seq<u8>>)
        },
        res matches Err(e) ==> e.kind == VfsErrorKind::InvalidData && e.message@
            == "page table too large"@,
{
    let page_size: usize = match first_len {
        Some(len) => if is_page_size(len) {
            len
        } else {
            DEFAULT_PAGE_SIZE
        },
        None => DEFAULT_PAGE_SIZE,
    };
    match (table.len() as u64).checked_mul(page_size as u64) {
        Some(_) => Ok(
            CraftDbHandle { buffer: PageBuffer::new(table, page_size), lock: LockKind::Unlocked },
        ),
        None => Err(
            VfsError { kind: VfsErrorKind::InvalidData, message: owned("page table too large") },
        ),
    }
}

/// Whether a database exists, from the store's answer on its root: it does
/// where the root is set and is not the null identifier. A failure of the
/// store is handed on with its message.
pub fn root_exists(answer: Result<Option<Cid>, PageStoreError>) -> (res: Result<bool, VfsError>)
    ensures
        match answer {
            Ok(Some(cid)) => res == Ok::<bool, VfsError>(!cid.spec_is_null()),
            Ok(None) => res == Ok::<bool, VfsError>(false),
            Err(e) => res matches Err(v) && v.kind == VfsErrorKind::Other && v.message@
                == e.spec_text(),
        },
{
    match answer {
        Ok(Some(cid)) => Ok(!cid.is_null()),
        Ok(None) => Ok(false),
        Err(e) => Err(store_failed(&e)),
    }
}

/// The outcome of a deletion, from the store's answer on resetting the
/// root: a failure of the store is handed on with its message.
pub fn root_reset(answer: Result<(), PageStoreError>) -> (res: Result<(), VfsError>)
    ensures
        match answer {
            Ok(()) => res is Ok,
            Err(e) => res matches Err(v) && v.kind == VfsErrorKind::Other && v.message@
                == e.spec_text(),
        },
{
    match answer {
        Ok(()) => Ok(()),
        Err(e) => Err(store_failed(&e)),
    }
}

/// The virtual file system over a page store.
pub struct CraftVfs<S: PageStore> {
    pub store: S,
}

impl<S: PageStore> CraftVfs<S> {
    /// A file system over `store`.
    pub fn new(store: S) -> (vfs: CraftVfs<S>)
        ensures
            vfs.store == store,
    {
        CraftVfs { store }
    }

    /// Whether a file name is that of a journal, a write-ahead log or its
    /// shared memory.
    pub fn is_auxiliary(db: &str) -> (r: bool)
        ensures
            r == auxiliary_name(db@),
    {
        ends_with(db, "-journal") || ends_with(db, "-wal") || ends_with(db, "-shm")
    }

    /// Opens a file. Anything but the main database gets an empty handle
    /// and the store is not asked. For the main database the table is the
    /// one that the current root names; without a root it is empty, unless
    /// the access is read-only: then the database is not found.
    pub fn open(&mut self, kind: OpenKind, access: OpenAccess) -> (res: Result<
        CraftDbHandle,
        VfsError,
    >)
        requires
            old(self).store.wf(),
        ensures
            final(self).store.wf(),
            old(self).store.pages().subset_of(final(self).store.pages()),
            final(self).store.named() == old(self).store.named(),
            res matches Ok(handle) ==> {
                &&& handle.wf()
                &&& handle.lock == LockKind::Unlocked
                &&& !handle.buffer.dirty
                &&& handle.buffer.slots() == Seq::new(
                    handle.buffer.page_table@.len(),
                    |i: int| None::<Seq<u8>>,
                )
                &&& handle.buffer.file_size == handle.buffer.page_table@.len()
                    * handle.buffer.page_size
            },
            kind != OpenKind::MainDb ==> res is Ok && res->Ok_0.buffer.page_table@.len() == 0
                && res->Ok_0.buffer.page_size == DEFAULT_PAGE_SIZE && *final(self) == *old(self),
            kind == OpenKind::MainDb ==> (res matches Ok(handle) ==> opened(
                final(self).store.root(),
                final(self).store.pages(),
                access,
                handle.buffer.page_table@,
                handle.buffer.page_size as int,
            )),
            res matches Err(e) ==> match e.kind {
                VfsErrorKind::NotFound => access == OpenAccess::Read && final(self).store.root()
                    is None,
                VfsErrorKind::InvalidData => unreadable_root(
                    final(self).store.root(),
                    final(self).store.pages(),
                ),
                VfsErrorKind::InvalidInput => false,
                VfsErrorKind::Other => true,
            },
    {
        if kind != OpenKind::MainDb {
            return handle_for(PageTable::new(), None);
        }
        let root = match self.store.current_root() {
            Ok(root) => root,
            Err(e) => {
                return Err(store_failed(&e));
            },
        };
        let ghost mut table_page: Seq<u8> = Seq::empty();
        let page_table = match root {
            None => match table_without_root(access) {
                Ok(table) => table,
                Err(e) => {
                    return Err(e);
                },
            },
            Some(cid) => {
                let page = match self.store.get(&cid) {
                    Ok(page) => page,
                    Err(e) => {
                        return Err(store_failed(&e));
                    },
                };
                proof {
                    table_page = page.data@;
                }
                match table_of_root(page.data.as_slice()) {
                    Ok(table) => table,
                    Err(e) => {
                        return Err(e);
                    },
                }
            },
        };
        let first_len: Option<usize> = match page_table.entry(0) {
            Some(first) => {
                match self.store.get(&first) {
                    Ok(page) => Some(page.data.len()),
                    Err(e) => {
                        return Err(store_failed(&e));
                    },
                }
            },
            None => None,
        };
        proof {
            assert(page_table@.len() * page_size_shown(first_len) <= page_table@.len() * 65536)
                by (nonlinear_arith)
                requires
                    0 <= page_size_shown(first_len) <= 65536,
                    page_table@.len() >= 0,
            ;
            if root is Some {
                assert(self.store.pages().contains(table_page));
                assert(crate::page_table::raw_entries(page_table@).len() == page_table@.len());
            }
        }
        handle_for(page_table, first_len)
    }

    /// Deletes a database: resets the root to the null identifier. Deleting
    /// an auxiliary file does nothing.
    pub fn delete(&mut self, db: &str) -> (res: Result<(), VfsError>)
        requires
            old(self).store.wf(),
        ensures
            final(self).store.wf(),
            old(self).store.pages().subset_of(final(self).store.pages()),
            final(self).store.named() == old(self).store.named(),
            auxiliary_name(db@) ==> res is Ok && *final(self) == *old(self),
            !auxiliary_name(db@) && res is Ok ==> final(self).store.root() is None,
            res matches Err(e) ==> e.kind == VfsErrorKind::Other,
    {
        if Self::is_auxiliary(db) {
            return Ok(());
        }
        root_reset(self.store.update_root(Cid::null()))
    }

    /// Whether a database exists: its root is set and is not the null
    /// identifier. An auxiliary file never exists.
    pub fn database_exists(&mut self, db: &str) -> (res: Result<bool, VfsError>)
        requires
            old(self).store.wf(),
        ensures
            final(self).store.wf(),
            old(self).store.pages().subset_of(final(self).store.pages()),
            final(self).store.named() == old(self).store.named(),
            auxiliary_name(db@) ==> res == Ok::<bool, VfsError>(false) && *final(self) == *old(
                self,
            ),
            !auxiliary_name(db@) ==> (res matches Ok(found) ==> found == (final(self).store.root()
                is Some)),
            res matches Err(e) ==> e.kind == VfsErrorKind::Other,
    {
        if Self::is_auxiliary(db) {
            return Ok(false);
        }
        root_exists(self.store.current_root())
    }

    /// A name for a temporary file: `craftsql-tmp-` and a fresh UUID.
    pub fn temporary_name() -> (name: String)
        ensures
            name@.len() == 49,
            name@.subrange(0, 13) == "craftsql-tmp-"@,
    {
        let uuid = fresh_uuid();
        let name = crate::text::joined("craftsql-tmp-", uuid.as_str());
        proof {
            reveal_strlit("craftsql-tmp-");
            assert(name@.subrange(0, 13) =~= "craftsql-tmp-"@);
        }
        name
    }
}

} // verus!
