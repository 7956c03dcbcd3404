//! The bundle: one blob that packs a page table and all its pages.
//!
//! Layout, all integers little-endian:
//!
//! ```text
//! offset 0            4 bytes   magic "CSQL"
//! offset 4            u16       version, 1
//! offset 6            u32       page size
//! offset 10           u32       page count
//! offset 14           pt_len    serialized page table
//! offset 14 + pt_len  u32       pt_len
//! then                page count blocks of page size bytes each
//! ```

use vstd::prelude::*;
use vstd::slice::slice_subrange;
use crate::bytes::append_bytes;
use crate::bytes::append_zeros;
use crate::cid::PageStoreError;
use crate::page_table::PageTable;
use crate::page_table::bincode_error_text;
use crate::text::joined;
use crate::text::owned;

verus! {

/// The four magic bytes, "CSQL".
pub open spec fn magic() -> Seq<u8> {
    seq![0x43u8, 0x53u8, 0x51u8, 0x4cu8]
}

/// The format version that this library writes and reads.
pub const BUNDLE_VERSION: u16 = 1;

/// The blocks of the pages, one after the other, each page filling its block
/// of `page_size` bytes.
pub open spec fn blocks(pages: Seq<Seq<u8>>, page_size: nat) -> Seq<u8>
    decreases pages.len(),
{
    if pages.len() == 0 {
        Seq::empty()
    } else {
        blocks(pages.drop_last(), page_size) + crate::bytes::padded(pages.last(), page_size)
    }
}

/// The bundle up to and including the repeated table length.
pub open spec fn header(page_size: u32, table: Seq<Option<Seq<u8>>>) -> Seq<u8> {
    let pt = crate::page_table::table_encoding(table);
    magic() + vstd::bytes::spec_u16_to_le_bytes(BUNDLE_VERSION) + vstd::bytes::spec_u32_to_le_bytes(
        page_size,
    ) + vstd::bytes::spec_u32_to_le_bytes(table.len() as u32) + pt
        + vstd::bytes::spec_u32_to_le_bytes(pt.len() as u32)
}

/// The bundle of a table and its pages. `pages` has one byte string for each
/// slot of the table, the empty one for an absent slot.
pub open spec fn bundle_encoding(
    page_size: u32,
    table: Seq<Option<Seq<u8>>>,
    pages: Seq<Seq<u8>>,
) -> Seq<u8> {
    header(page_size, table) + blocks(pages, page_size as nat)
}

/// Whether a table can be written into a bundle: its slot count and its
/// serialized length each fit the format's 32-bit fields.
pub open spec fn fits_bundle(table: Seq<Option<Seq<u8>>>) -> bool {
    table.len() <= u32::MAX && crate::page_table::table_encoding(table).len() <= u32::MAX
}

/// Why a blob is no bundle.
#[derive(Debug, Clone, Copy, PartialEq, Eq, Structural)]
pub enum BundleFault {
    /// Fewer than the 18 bytes of the smallest bundle.
    TooSmall,
    /// The first four bytes are not the magic.
    BadMagic,
    /// A version other than 1.
    UnsupportedVersion(u16),
    /// Fewer bytes than the header and the page blocks need.
    TooShort,
    /// The recorded table length reaches past the table's place.
    BadTableLength,
}

/// Where the parts of a bundle lie.
#[derive(Debug, Clone, Copy, PartialEq, Eq, Structural)]
pub struct BundleLayout {
    /// Size of each page block in bytes.
    pub page_size: u32,
    /// Number of page blocks.
    pub page_count: u32,
    /// Where the serialized table ends; it starts at offset 14.
    pub table_end: usize,
    /// Where the first page block starts.
    pub pages_start: usize,
}

/// The layout of a blob, or why it is no bundle. The checks come in this
/// order: the least length, the magic, the version, the length that the
/// page blocks need, and the recorded table length.
pub open spec fn layout_of(data: Seq<u8>) -> Result<BundleLayout, BundleFault> {
    if data.len() < 18 {
        Err(BundleFault::TooSmall)
    } else if data.subrange(0, 4) != magic() {
        Err(BundleFault::BadMagic)
    } else if vstd::bytes::spec_u16_from_le_bytes(data.subrange(4, 6)) != BUNDLE_VERSION {
        Err(
            BundleFault::UnsupportedVersion(
                vstd::bytes::spec_u16_from_le_bytes(data.subrange(4, 6)),
            ),
        )
    } else {
        let page_size = vstd::bytes::spec_u32_from_le_bytes(data.subrange(6, 10));
        let page_count = vstd::bytes::spec_u32_from_le_bytes(data.subrange(10, 14));
        let pages_total = page_count * page_size;
        if data.len() < 18 + pages_total {
            Err(BundleFault::TooShort)
        } else {
            let trailer = data.len() - pages_total - 4;
            let pt_len = vstd::bytes::spec_u32_from_le_bytes(data.subrange(trailer, trailer + 4));
            if 14 + pt_len > trailer {
                Err(BundleFault::BadTableLength)
            } else {
                Ok(
                    BundleLayout {
                        page_size,
                        page_count,
                        table_end: (14 + pt_len) as usize,
                        pages_start: (trailer + 4) as usize,
                    },
                )
            }
        }
    }
}

/// The serialized table inside a bundle with the given layout.
pub open spec fn table_part(data: Seq<u8>, layout: BundleLayout) -> Seq<u8> {
    data.subrange(14, layout.table_end as int)
}

/// The `i`-th page block inside a bundle with the given layout.
pub open spec fn block_at(data: Seq<u8>, layout: BundleLayout, i: int) -> Seq<u8> {
    data.subrange(
        layout.pages_start + i * layout.page_size,
        layout.pages_start + (i + 1) * layout.page_size,
    )
}

/// All page blocks inside a bundle with the given layout.
pub open spec fn blocks_of(data: Seq<u8>, layout: BundleLayout) -> Seq<Seq<u8>> {
    Seq::new(layout.page_count as nat, |i: int| block_at(data, layout, i))
}

impl BundleFault {
    /// Whether `text` is the message of the fault. The message for a version
    /// ends with the version's number as `u16` prints it.
    pub open spec fn has_message(&self, text: Seq<char>) -> bool {
        match self {
            BundleFault::TooSmall => text == "bundle too small"@,
            BundleFault::BadMagic => text == "invalid bundle magic"@,
            BundleFault::UnsupportedVersion(version) => exists|number: String|
                #![trigger vstd::string::to_string_from_display_ensures::<u16>(version, number)]
                vstd::string::to_string_from_display_ensures::<u16>(version, number) && text
                    == "unsupported bundle version "@ + number@,
            BundleFault::TooShort => text == "bundle data too short"@,
            BundleFault::BadTableLength => text == "invalid page table length"@,
        }
    }

    /// The message of the fault.
    pub fn message(&self) -> (text: String)
        ensures
            self.has_message(text@),
    {
        match self {
            BundleFault::TooSmall => owned("bundle too small"),
            BundleFault::BadMagic => owned("invalid bundle magic"),
            BundleFault::UnsupportedVersion(version) => {
                let number = version.to_string();
                joined("unsupported bundle version ", number.as_str())
            },
            BundleFault::TooShort => owned("bundle data too short"),
            BundleFault::BadTableLength => owned("invalid page table length"),
        }
    }
}

/// Writes the bundle of a table up to and including the repeated table
/// length. `None` where the table does not fit the format's 32-bit fields.
pub fn write_header(page_size: u32, table: &PageTable) -> (res: Option<Vec<u8>>)
    ensures
        res is Some <==> fits_bundle(crate::page_table::raw_entries(table@)),
        res matches Some(buf) ==> buf@ == header(page_size, crate::page_table::raw_entries(table@)),
{
    let pt_bytes = table.to_bytes();
    if table.len() > 0xffff_ffff || pt_bytes.len() > 0xffff_ffff {
        return None;
    }
    let page_count: u32 = table.len() as u32;
    let pt_len: u32 = pt_bytes.len() as u32;
    let mut buf: Vec<u8> = Vec::new();
    buf.push(0x43u8);
    buf.push(0x53u8);
    buf.push(0x51u8);
    buf.push(0x4cu8);
    assert(buf@ == magic());
    let version = vstd::bytes::u16_to_le_bytes(BUNDLE_VERSION);
    append_bytes(&mut buf, version.as_slice());
    let size = vstd::bytes::u32_to_le_bytes(page_size);
    append_bytes(&mut buf, size.as_slice());
    let count = vstd::bytes::u32_to_le_bytes(page_count);
    append_bytes(&mut buf, count.as_slice());
    append_bytes(&mut buf, pt_bytes.as_slice());
    let trailer = vstd::bytes::u32_to_le_bytes(pt_len);
    append_bytes(&mut buf, trailer.as_slice());
    Some(buf)
}

/// Appends the block of one page: the page, and zeros after it where it is
/// shorter than `page_size`.
pub fn append_block(buf: &mut Vec<u8>, data: &[u8], page_size: u32)
    ensures
        final(buf)@ == old(buf)@ + crate::bytes::padded(data@, page_size as nat),
{
    append_bytes(buf, data);
    if data.len() < page_size as usize {
        append_zeros(buf, page_size as usize - data.len());
        assert(buf@ == old(buf)@ + (data@ + crate::bytes::zeros((page_size - data.len()) as nat)));
    }
}

/// Finds the parts of a bundle, or says why the blob is none.
pub fn check_bundle(data: &[u8]) -> (res: Result<BundleLayout, BundleFault>)
    ensures
        res == layout_of(data@),
        res matches Ok(layout) ==> {
            &&& 14 <= layout.table_end <= layout.pages_start - 4
            &&& layout.pages_start + layout.page_count * layout.page_size == data@.len()
        },
{
    if data.len() < 18 {
        return Err(BundleFault::TooSmall);
    }
    let head = slice_subrange(data, 0, 4);
    if !(head[0] == 0x43u8 && head[1] == 0x53u8 && head[2] == 0x51u8 && head[3] == 0x4cu8) {
        assert(head@ != magic()) by {
            if head@ == magic() {
                assert(magic()[0] == 0x43u8 && magic()[1] == 0x53u8 && magic()[2] == 0x51u8
                    && magic()[3] == 0x4cu8);
            }
        }
        return Err(BundleFault::BadMagic);
    }
    assert(head@ =~= magic());
    let version = vstd::bytes::u16_from_le_bytes(slice_subrange(data, 4, 6));
    if version != BUNDLE_VERSION {
        return Err(BundleFault::UnsupportedVersion(version));
    }
    let page_size: u32 = vstd::bytes::u32_from_le_bytes(slice_subrange(data, 6, 10));
    let page_count: u32 = vstd::bytes::u32_from_le_bytes(slice_subrange(data, 10, 14));
    assert(page_count * page_size <= 0xffff_ffff * 0xffff_ffff) by (nonlinear_arith)
        requires
            page_count <= 0xffff_ffff,
            page_size <= 0xffff_ffff,
    ;
    let pages_total: u64 = (page_count as u64) * (page_size as u64);
    if (data.len() as u64) < 18 + pages_total {
        return Err(BundleFault::TooShort);
    }
    let trailer: usize = data.len() - (pages_total as usize) - 4;
    let pt_len: u32 = vstd::bytes::u32_from_le_bytes(slice_subrange(data, trailer, trailer + 4));
    if 14 + (pt_len as u64) > trailer as u64 {
        return Err(BundleFault::BadTableLength);
    }
    Ok(
        BundleLayout {
            page_size,
            page_count,
            table_end: 14 + pt_len as usize,
            pages_start: trailer + 4,
        },
    )
}

/// Reads the page table of a bundle whose layout is known.
pub fn read_table(data: &[u8], layout: &BundleLayout) -> (res: Result<PageTable, PageStoreError>)
    requires
        14 <= layout.table_end <= data@.len(),
    ensures
        res is Ok <==> crate::page_table::table_decoding(table_part(data@, *layout)) is Some,
        res matches Ok(table) ==> crate::page_table::raw_entries(table@)
            == crate::page_table::table_decoding(table_part(data@, *layout))->0,
        res matches Err(e) ==> e is Storage,
{
    match PageTable::from_bytes(slice_subrange(data, 14, layout.table_end)) {
        Ok(table) => Ok(table),
        Err(e) => {
            let text = bincode_error_text(&e);
            Err(PageStoreError::Storage(joined("parse page table: ", text.as_str())))
        },
    }
}

/// The `i`-th page block of a bundle whose layout is known.
pub fn read_block<'a>(data: &'a [u8], layout: &BundleLayout, i: u32) -> (block: &'a [u8])
    requires
        layout.pages_start + layout.page_count * layout.page_size == data@.len(),
        i < layout.page_count,
    ensures
        block@ == block_at(data@, *layout, i as int),
        block@.len() == layout.page_size,
{
    let size = layout.page_size as usize;
    let total = data.len();
    assert((i + 1) * layout.page_size <= layout.page_count * layout.page_size
        && i * layout.page_size + layout.page_size == (i + 1) * layout.page_size
        && 0 <= i * layout.page_size) by (nonlinear_arith)
        requires
            0 <= i < layout.page_count,
            0 <= layout.page_size,
    ;
    assert(i * layout.page_size + layout.page_size <= total);
    let start: usize = layout.pages_start + (i as usize) * size;
    slice_subrange(data, start, start + size)
}

/// Pages that fit the page size fill their blocks exactly.
pub proof fn lemma_blocks_len(pages: Seq<Seq<u8>>, page_size: nat)
    requires
        forall|i: int| 0 <= i < pages.len() ==> (#[trigger] pages[i]).len() <= page_size,
    ensures
        blocks(pages, page_size).len() == pages.len() * page_size,
    decreases pages.len(),
{
    if pages.len() > 0 {
        let front = pages.drop_last();
        assert forall|i: int| 0 <= i < front.len() implies (#[trigger] front[i]).len()
            <= page_size by {
            assert(front[i] == pages[i]);
        }
        lemma_blocks_len(front, page_size);
        assert(pages.last() == pages[pages.len() - 1]);
        assert((pages.len() - 1) * page_size + page_size == pages.len() * page_size)
            by (nonlinear_arith);
    } else {
        assert(pages.len() * page_size == 0) by (nonlinear_arith)
            requires
                pages.len() == 0,
        ;
    }
}

/// The block of a page that fits the page size is the page filled with
/// zeros.
pub proof fn lemma_block_of(pages: Seq<Seq<u8>>, page_size: nat, i: int)
    requires
        forall|k: int| 0 <= k < pages.len() ==> (#[trigger] pages[k]).len() <= page_size,
        0 <= i < pages.len(),
    ensures
        (i + 1) * page_size <= blocks(pages, page_size).len(),
        blocks(pages, page_size).subrange(i * page_size, (i + 1) * page_size)
            == crate::bytes::padded(pages[i], page_size),
    decreases pages.len(),
{
    let front = pages.drop_last();
    assert forall|k: int| 0 <= k < front.len() implies (#[trigger] front[k]).len() <= page_size by {
        assert(front[k] == pages[k]);
    }
    lemma_blocks_len(front, page_size);
    lemma_blocks_len(pages, page_size);
    assert(pages.last() == pages[pages.len() - 1]);
    assert((i + 1) * page_size == i * page_size + page_size) by (nonlinear_arith);
    assert(i * page_size <= (pages.len() - 1) * page_size && (pages.len() - 1) * page_size
        + page_size == pages.len() * page_size) by (nonlinear_arith)
        requires
            0 <= i < pages.len(),
    ;
    let all = blocks(pages, page_size);
    let last = crate::bytes::padded(pages.last(), page_size);
    if i == pages.len() - 1 {
        assert(all.subrange(i * page_size, (i + 1) * page_size) =~= last);
    } else {
        lemma_block_of(front, page_size, i);
        assert(front[i] == pages[i]);
        assert((i + 1) * page_size <= (pages.len() - 1) * page_size) by (nonlinear_arith)
            requires
                0 <= i < pages.len() - 1,
        ;
        assert(all.subrange(i * page_size, (i + 1) * page_size) =~= blocks(
            front,
            page_size,
        ).subrange(i * page_size, (i + 1) * page_size));
    }
}

/// Pages that fill their blocks alike give the same blocks.
pub proof fn lemma_blocks_alike(a: Seq<Seq<u8>>, b: Seq<Seq<u8>>, page_size: nat)
    requires
        a.len() == b.len(),
        forall|i: int|
            0 <= i < a.len() ==> crate::bytes::padded(#[trigger] a[i], page_size)
                == crate::bytes::padded(b[i], page_size),
    ensures
        blocks(a, page_size) == blocks(b, page_size),
    decreases a.len(),
{
    if a.len() > 0 {
        let fa = a.drop_last();
        let fb = b.drop_last();
        assert forall|i: int| 0 <= i < fa.len() implies crate::bytes::padded(
            #[trigger] fa[i],
            page_size,
        ) == crate::bytes::padded(fb[i], page_size) by {
            assert(fa[i] == a[i]);
            assert(fb[i] == b[i]);
        }
        lemma_blocks_alike(fa, fb, page_size);
        assert(a.last() == a[a.len() - 1]);
        assert(b.last() == b[b.len() - 1]);
    }
}

/// The layout that a bundle of this table has.
pub open spec fn layout_for(page_size: u32, table: Seq<Option<Seq<u8>>>) -> BundleLayout {
    let table_len = crate::page_table::table_encoding(table).len();
    BundleLayout {
        page_size,
        page_count: table.len() as u32,
        table_end: (14 + table_len) as usize,
        pages_start: (18 + table_len) as usize,
    }
}

/// The parts of a bundle's header lie where the format puts them.
proof fn lemma_header_parts(page_size: u32, table: Seq<Option<Seq<u8>>>)
    ensures
        ({
            let head = header(page_size, table);
            let pt = crate::page_table::table_encoding(table);
            &&& head.len() == 18 + pt.len()
            &&& head.subrange(0, 4) == magic()
            &&& head.subrange(4, 6) == vstd::bytes::spec_u16_to_le_bytes(BUNDLE_VERSION)
            &&& head.subrange(6, 10) == vstd::bytes::spec_u32_to_le_bytes(page_size)
            &&& head.subrange(10, 14) == vstd::bytes::spec_u32_to_le_bytes(table.len() as u32)
            &&& head.subrange(14, 14 + pt.len() as int) == pt
            &&& head.subrange(14 + pt.len() as int, 18 + pt.len() as int)
                == vstd::bytes::spec_u32_to_le_bytes(pt.len() as u32)
        }),
{
    vstd::bytes::lemma_auto_spec_u16_to_from_le_bytes();
    vstd::bytes::lemma_auto_spec_u32_to_from_le_bytes();
    let head = header(page_size, table);
    let pt = crate::page_table::table_encoding(table);
    assert(head.subrange(0, 4) =~= magic());
    assert(head.subrange(4, 6) =~= vstd::bytes::spec_u16_to_le_bytes(BUNDLE_VERSION));
    assert(head.subrange(6, 10) =~= vstd::bytes::spec_u32_to_le_bytes(page_size));
    assert(head.subrange(10, 14) =~= vstd::bytes::spec_u32_to_le_bytes(table.len() as u32));
    assert(head.subrange(14, 14 + pt.len() as int) =~= pt);
    assert(head.subrange(14 + pt.len() as int, 18 + pt.len() as int)
        =~= vstd::bytes::spec_u32_to_le_bytes(pt.len() as u32));
}

/// A part of the front of two joined byte strings is that part of the
/// first.
proof fn lemma_front_part(head: Seq<u8>, body: Seq<u8>, from: int, to: int)
    requires
        0 <= from <= to <= head.len(),
    ensures
        (head + body).subrange(from, to) == head.subrange(from, to),
{
    assert((head + body).subrange(from, to) =~= head.subrange(from, to));
}

/// A part of the back of two joined byte strings is that part of the
/// second.
proof fn lemma_back_part(head: Seq<u8>, body: Seq<u8>, from: int, to: int)
    requires
        0 <= from <= to <= body.len(),
    ensures
        (head + body).subrange(head.len() + from, head.len() + to) == body.subrange(from, to),
{
    assert((head + body).subrange(head.len() + from, head.len() + to) =~= body.subrange(from, to));
}

/// The layout of a bundle is the one that its table and page size give.
proof fn lemma_bundle_layout(page_size: u32, table: Seq<Option<Seq<u8>>>, pages: Seq<Seq<u8>>)
    requires
        fits_bundle(table),
        pages.len() == table.len(),
        forall|i: int| 0 <= i < pages.len() ==> (#[trigger] pages[i]).len() <= page_size,
        bundle_encoding(page_size, table, pages).len() <= usize::MAX,
    ensures
        bundle_encoding(page_size, table, pages).len() == 18 + crate::page_table::table_encoding(
            table,
        ).len() + table.len() * page_size,
        layout_of(bundle_encoding(page_size, table, pages)) == Ok::<BundleLayout, BundleFault>(
            layout_for(page_size, table),
        ),
        table_part(bundle_encoding(page_size, table, pages), layout_for(page_size, table))
            == crate::page_table::table_encoding(table),
{
    vstd::bytes::lemma_auto_spec_u16_to_from_le_bytes();
    vstd::bytes::lemma_auto_spec_u32_to_from_le_bytes();
    let head = header(page_size, table);
    let body = blocks(pages, page_size as nat);
    let blob = bundle_encoding(page_size, table, pages);
    let table_len = crate::page_table::table_encoding(table).len() as int;
    lemma_header_parts(page_size, table);
    lemma_blocks_len(pages, page_size as nat);
    assert(blob.len() == head.len() + body.len());
    lemma_front_part(head, body, 0, 4);
    lemma_front_part(head, body, 4, 6);
    lemma_front_part(head, body, 6, 10);
    lemma_front_part(head, body, 10, 14);
    lemma_front_part(head, body, 14, 14 + table_len);
    lemma_front_part(head, body, 14 + table_len, 18 + table_len);
    let total = (table.len() as u32) * page_size;
    assert(total == body.len());
    assert(blob.len() - total - 4 == 14 + table_len);
}

/// A bundle reads back as what went into it, and bundling what was read
/// gives the same bundle again. For a table that fits the format and pages
/// that fit the page size, the bundle has 14 bytes, the table, 4 bytes and
/// one block of `page_size` bytes for each slot; its layout, its table and
/// its blocks are those that were written, each page filled with zeros to
/// the page size.
pub proof fn law_bundle_round_trip(page_size: u32, table: Seq<Option<Seq<u8>>>, pages: Seq<Seq<u8>>)
    requires
        fits_bundle(table),
        crate::page_table::digests_sized(table),
        pages.len() == table.len(),
        forall|i: int| 0 <= i < pages.len() ==> (#[trigger] pages[i]).len() <= page_size,
        bundle_encoding(page_size, table, pages).len() <= usize::MAX,
    ensures
        ({
            let blob = bundle_encoding(page_size, table, pages);
            let layout = layout_for(page_size, table);
            &&& blob.len() == 14 + crate::page_table::table_encoding(table).len() + 4 + table.len()
                * page_size
            &&& layout_of(blob) == Ok::<BundleLayout, BundleFault>(layout)
            &&& crate::page_table::table_decoding(table_part(blob, layout)) == Some(table)
            &&& forall|i: int|
                0 <= i < pages.len() ==> #[trigger] block_at(blob, layout, i)
                    == crate::bytes::padded(pages[i], page_size as nat)
            &&& bundle_encoding(page_size, table, blocks_of(blob, layout)) == blob
        }),
{
    let blob = bundle_encoding(page_size, table, pages);
    let layout = layout_for(page_size, table);
    let pt = crate::page_table::table_encoding(table);
    let head = header(page_size, table);
    let body = blocks(pages, page_size as nat);
    lemma_bundle_layout(page_size, table, pages);
    lemma_header_parts(page_size, table);
    crate::page_table::lemma_table_round_trip(table, Seq::empty());
    assert(pt + Seq::<u8>::empty() =~= pt);
    assert forall|i: int| 0 <= i < pages.len() implies #[trigger] block_at(blob, layout, i)
        == crate::bytes::padded(pages[i], page_size as nat) by {
        lemma_block_of(pages, page_size as nat, i);
        assert(0 <= i * page_size) by (nonlinear_arith)
            requires
                0 <= i,
        ;
        assert(i * page_size <= (i + 1) * page_size) by (nonlinear_arith);
        lemma_back_part(head, body, i * page_size, (i + 1) * page_size);
    }
    let read = blocks_of(blob, layout);
    assert(read.len() == pages.len());
    assert forall|i: int| 0 <= i < read.len() implies crate::bytes::padded(
        #[trigger] read[i],
        page_size as nat,
    ) == crate::bytes::padded(pages[i], page_size as nat) by {
        assert(read[i] == block_at(blob, layout, i));
    }
    lemma_blocks_alike(read, pages, page_size as nat);
}

} // verus!
