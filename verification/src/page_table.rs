//! The page table: which content identifier each logical page has.

use vstd::prelude::*;
use vstd::bytes::spec_u64_from_le_bytes;
use vstd::bytes::spec_u64_to_le_bytes;
use vstd::bytes::lemma_auto_spec_u64_to_from_le_bytes;
use crate::cid::Cid;

verus! {

/// The entry of a table at a page number: `None` past its end.
pub open spec fn entry_at(entries: Seq<Option<Cid>>, page_num: int) -> Option<Cid> {
    if 0 <= page_num < entries.len() {
        entries[page_num]
    } else {
        None
    }
}

/// The entries after page `page_num` has been given `cid`: the table grows
/// with absent slots where it was too short.
pub open spec fn with_entry(entries: Seq<Option<Cid>>, page_num: int, cid: Cid) -> Seq<
    Option<Cid>,
> {
    Seq::new(
        if page_num < entries.len() { entries.len() } else { (page_num + 1) as nat },
        |i: int| if i == page_num { Some(cid) } else { entry_at(entries, i) },
    )
}

/// The changes from `old` to `new` among the first `n` page numbers, in
/// ascending order: one triple for each page whose entries differ.
pub open spec fn changes_upto(new: Seq<Option<Cid>>, old: Seq<Option<Cid>>, n: nat) -> Seq<
    (usize, Option<Cid>, Option<Cid>),
>
    decreases n,
{
    if n == 0 {
        Seq::empty()
    } else {
        let i = (n - 1) as int;
        let before = changes_upto(new, old, (n - 1) as nat);
        if entry_at(old, i) != entry_at(new, i) {
            before.push((i as usize, entry_at(old, i), entry_at(new, i)))
        } else {
            before
        }
    }
}

/// The changes from `old` to `new`, scanning both to the longer length.
pub open spec fn changes(new: Seq<Option<Cid>>, old: Seq<Option<Cid>>) -> Seq<
    (usize, Option<Cid>, Option<Cid>),
> {
    changes_upto(new, old, if new.len() >= old.len() { new.len() } else { old.len() })
}

/// The page numbers that a list of changes names.
pub open spec fn changed_pages(changes: Seq<(usize, Option<Cid>, Option<Cid>)>) -> Set<int> {
    Set::new(|p: int| exists|k: int| 0 <= k < changes.len() && #[trigger] changes[k].0 == p)
}

/// The digest bytes of each entry.
pub open spec fn raw_entries(entries: Seq<Option<Cid>>) -> Seq<Option<Seq<u8>>> {
    Seq::new(
        entries.len(),
        |i: int|
            match entries[i] {
                Some(cid) => Some(cid@),
                None => None,
            },
    )
}

/// The bytes of one entry: tag 0 for an absent slot, tag 1 and the digest
/// for a present one.
pub open spec fn entry_encoding(entry: Option<Seq<u8>>) -> Seq<u8> {
    match entry {
        None => seq![0u8],
        Some(digest) => seq![1u8] + digest,
    }
}

/// The bytes of the entries, one after the other.
pub open spec fn entries_encoding(entries: Seq<Option<Seq<u8>>>) -> Seq<u8>
    decreases entries.len(),
{
    if entries.len() == 0 {
        Seq::empty()
    } else {
        entry_encoding(entries[0]) + entries_encoding(entries.drop_first())
    }
}

/// The serialized table: the number of entries as eight little-endian
/// bytes, then the entries.
pub open spec fn table_encoding(entries: Seq<Option<Seq<u8>>>) -> Seq<u8> {
    spec_u64_to_le_bytes(entries.len() as u64) + entries_encoding(entries)
}

/// Reads `count` entries from the front of `bytes`; `None` where the bytes
/// end early or a tag is neither 0 nor 1. Bytes after the last entry are
/// ignored.
pub open spec fn entries_decoding(bytes: Seq<u8>, count: nat) -> Option<Seq<Option<Seq<u8>>>>
    decreases count,
{
    if count == 0 {
        Some(Seq::empty())
    } else if bytes.len() == 0 {
        None
    } else if bytes[0] == 0 {
        match entries_decoding(bytes.skip(1), (count - 1) as nat) {
            Some(rest) => Some(seq![None] + rest),
            None => None,
        }
    } else if bytes[0] == 1 && bytes.len() >= 33 {
        match entries_decoding(bytes.skip(33), (count - 1) as nat) {
            Some(rest) => Some(seq![Some(bytes.subrange(1, 33))] + rest),
            None => None,
        }
    } else {
        None
    }
}

/// Reads a serialized table: the count, then that many entries.
pub open spec fn table_decoding(bytes: Seq<u8>) -> Option<Seq<Option<Seq<u8>>>> {
    if bytes.len() < 8 {
        None
    } else {
        entries_decoding(bytes.skip(8), spec_u64_from_le_bytes(bytes.subrange(0, 8)) as nat)
    }
}

/// Whether every present entry is a digest of 32 bytes.
pub open spec fn digests_sized(entries: Seq<Option<Seq<u8>>>) -> bool {
    forall|i: int| 0 <= i < entries.len() ==> (#[trigger] entries[i] matches Some(d) ==> d.len() == 32)
}

/// The error of `bincode::deserialize`, behind its `Box`.
#[verifier::external_type_specification]
#[verifier::external_body]
pub struct ExBincodeErrorKind(bincode::ErrorKind);

/// `bincode::serialize` on a vector of optional 32-byte arrays: the length
/// as eight little-endian bytes, then for each item one tag byte, 0 or 1,
/// and after a 1 the 32 bytes.
#[verifier::external_body]
fn bincode_serialize(entries: &Vec<Option<Cid>>) -> (out: Vec<u8>)
    ensures
        out@ == table_encoding(raw_entries(entries@)),
{
    let raw: Vec<Option<[u8; 32]>> = entries.iter().map(|e| e.map(|c| c.0)).collect();
    bincode::serialize(&raw).unwrap_or_default()
}

/// `bincode::deserialize` to a vector of optional 32-byte arrays: reads
/// what `bincode::serialize` writes, fails where the bytes end early or a
/// tag is neither 0 nor 1, and ignores bytes after the last item.
#[verifier::external_body]
fn bincode_deserialize(data: &[u8]) -> (res: Result<Vec<Option<Cid>>, bincode::Error>)
    ensures
        res is Ok <==> table_decoding(data@) is Some,
        res matches Ok(entries) ==> raw_entries(entries@) == table_decoding(data@)->0,
{
    let raw: Vec<Option<[u8; 32]>> = bincode::deserialize(data)?;
    Ok(raw.into_iter().map(|e| e.map(Cid)).collect())
}

/// The `Display` text of a `bincode::Error`.
#[verifier::external_body]
pub(crate) fn bincode_error_text(e: &bincode::Error) -> String {
    e.to_string()
}

/// Difference between two page tables: the pages that changed.
#[derive(Debug, Clone)]
pub struct PageTableDiff {
    /// One triple `(page_num, old, new)` for each page whose entries differ.
    pub changed: Vec<(usize, Option<Cid>, Option<Cid>)>,
}

/// Page table: the content identifier of each page number, `None` for a
/// page that was never written.
#[derive(Debug, Clone)]
pub struct PageTable {
    pub entries: Vec<Option<Cid>>,
}

impl View for PageTable {
    type V = Seq<Option<Cid>>;

    open spec fn view(&self) -> Seq<Option<Cid>> {
        self.entries@
    }
}

/// Whether two entries are equal.
fn same_entry(a: Option<Cid>, b: Option<Cid>) -> (r: bool)
    ensures
        r == (a == b),
{
    match (a, b) {
        (Some(x), Some(y)) => x == y,
        (None, None) => true,
        _ => false,
    }
}

impl PageTable {
    /// An empty table.
    pub fn new() -> (table: PageTable)
        ensures
            table@ == Seq::<Option<Cid>>::empty(),
    {
        PageTable { entries: Vec::new() }
    }

    /// The identifier of a page, `None` where the page is absent or past the
    /// end of the table.
    pub fn get(&self, page_num: usize) -> (r: Option<&Cid>)
        ensures
            match r {
                Some(cid) => entry_at(self@, page_num as int) == Some(*cid),
                None => entry_at(self@, page_num as int) is None,
            },
    {
        if page_num < self.entries.len() {
            match &self.entries[page_num] {
                Some(cid) => Some(cid),
                None => None,
            }
        } else {
            None
        }
    }

    /// The entry of a page by value.
    pub fn entry(&self, page_num: usize) -> (r: Option<Cid>)
        ensures
            r == entry_at(self@, page_num as int),
    {
        if page_num < self.entries.len() {
            self.entries[page_num]
        } else {
            None
        }
    }

    /// Sets the identifier of a page, growing the table with absent slots if
    /// needed.
    pub fn set(&mut self, page_num: usize, cid: Cid)
        requires
            page_num < usize::MAX,
        ensures
            final(self)@ == with_entry(old(self)@, page_num as int, cid),
    {
        if page_num >= self.entries.len() {
            self.entries.resize(page_num + 1, None);
        }
        self.entries[page_num] = Some(cid);
        assert(self@ =~= with_entry(old(self)@, page_num as int, cid));
    }

    /// A copy of the table.
    pub fn copy(&self) -> (table: PageTable)
        ensures
            table@ == self@,
    {
        let mut entries: Vec<Option<Cid>> = Vec::new();
        let mut i: usize = 0;
        while i < self.entries.len()
            invariant
                i <= self.entries@.len(),
                entries@ == self.entries@.subrange(0, i as int),
            decreases self.entries@.len() - i,
        {
            entries.push(self.entries[i]);
            assert(self.entries@.subrange(0, i + 1) == self.entries@.subrange(0, i as int).push(
                self.entries@[i as int],
            ));
            i += 1;
        }
        assert(self.entries@.subrange(0, self.entries@.len() as int) == self.entries@);
        PageTable { entries }
    }

    /// Drops the slots from `len` on, if there are any.
    pub fn truncate(&mut self, len: usize)
        ensures
            final(self)@ == if len <= old(self)@.len() {
                old(self)@.subrange(0, len as int)
            } else {
                old(self)@
            },
    {
        self.entries.truncate(len);
    }

    /// Number of page slots, absent ones included.
    pub fn len(&self) -> (n: usize)
        ensures
            n == self@.len(),
    {
        self.entries.len()
    }

    /// Whether the table has no slot at all.
    pub fn is_empty(&self) -> (r: bool)
        ensures
            r == (self@.len() == 0),
    {
        self.entries.len() == 0
    }

    /// The pages whose entries differ between `old` and this table, in
    /// ascending page order, scanning both to the longer length.
    pub fn diff(&self, old: &PageTable) -> (diff: PageTableDiff)
        ensures
            diff.changed@ == changes(self@, old@),
    {
        let max_len = if self.entries.len() >= old.entries.len() {
            self.entries.len()
        } else {
            old.entries.len()
        };
        let mut changed: Vec<(usize, Option<Cid>, Option<Cid>)> = Vec::new();
        let mut i: usize = 0;
        while i < max_len
            invariant
                i <= max_len,
                changed@ == changes_upto(self@, old@, i as nat),
            decreases max_len - i,
        {
            let old_cid = old.entry(i);
            let new_cid = self.entry(i);
            if !same_entry(old_cid, new_cid) {
                changed.push((i, old_cid, new_cid));
            }
            i += 1;
        }
        PageTableDiff { changed }
    }

    /// Serializes the table: the number of slots as eight little-endian
    /// bytes, then one tag byte for each slot and the 32 digest bytes after
    /// the tag of a present one.
    pub fn to_bytes(&self) -> (bytes: Vec<u8>)
        ensures
            bytes@ == table_encoding(raw_entries(self@)),
            table_decoding(bytes@) == Some(raw_entries(self@)),
    {
        let bytes = bincode_serialize(&self.entries);
        let count = self.entries.len();
        proof {
            assert(self@.len() == count);
            lemma_raw_entries_sized(self@);
            lemma_table_round_trip(raw_entries(self@), Seq::empty());
            assert(bytes@ + Seq::<u8>::empty() =~= bytes@);
        }
        bytes
    }

    /// Reads a serialized table. Fails where the bytes end before the last
    /// slot or a tag is neither 0 nor 1; bytes after the last slot are
    /// ignored.
    pub fn from_bytes(data: &[u8]) -> (res: Result<PageTable, bincode::Error>)
        ensures
            res is Ok <==> table_decoding(data@) is Some,
            res matches Ok(table) ==> raw_entries(table@) == table_decoding(data@)->0,
    {
        match bincode_deserialize(data) {
            Ok(entries) => Ok(PageTable { entries }),
            Err(e) => Err(e),
        }
    }
}

impl Default for PageTable {
    fn default() -> (table: PageTable)
        ensures
            table@ == Seq::<Option<Cid>>::empty(),
    {
        PageTable::new()
    }
}

/// The changes among the first `n` pages name exactly the pages below `n`
/// whose entries differ, each with its old and its new entry, in ascending
/// order.
pub proof fn lemma_changes_upto(new: Seq<Option<Cid>>, old: Seq<Option<Cid>>, n: nat)
    requires
        n <= usize::MAX,
    ensures
        forall|k: int|
            0 <= k < changes_upto(new, old, n).len() ==> {
                let change = #[trigger] changes_upto(new, old, n)[k];
                &&& change.0 < n
                &&& change.1 == entry_at(old, change.0 as int)
                &&& change.2 == entry_at(new, change.0 as int)
                &&& change.1 != change.2
            },
        forall|j: int, k: int|
            0 <= j < k < changes_upto(new, old, n).len() ==> (#[trigger] changes_upto(new, old, n)[j]).0
                < (#[trigger] changes_upto(new, old, n)[k]).0,
        forall|p: int|
            0 <= p < n && entry_at(old, p) != entry_at(new, p) ==> #[trigger] changed_pages(
                changes_upto(new, old, n),
            ).contains(p),
    decreases n,
{
    if n > 0 {
        let before = changes_upto(new, old, (n - 1) as nat);
        let all = changes_upto(new, old, n);
        lemma_changes_upto(new, old, (n - 1) as nat);
        assert forall|p: int| 0 <= p < n && entry_at(old, p) != entry_at(new, p) implies #[trigger] changed_pages(
            all,
        ).contains(p) by {
            if p < n - 1 {
                assert(changed_pages(before).contains(p));
                let k = choose|k: int| 0 <= k < before.len() && #[trigger] before[k].0 == p;
                assert(all[k] == before[k]);
            } else {
                assert(all[all.len() - 1].0 == p);
            }
        }
    }
}

/// A table does not differ from itself.
pub proof fn law_diff_with_itself_is_empty(table: Seq<Option<Cid>>)
    ensures
        changes(table, table) == Seq::<(usize, Option<Cid>, Option<Cid>)>::empty(),
{
    lemma_no_changes_upto(table, table.len());
}

proof fn lemma_no_changes_upto(table: Seq<Option<Cid>>, n: nat)
    ensures
        changes_upto(table, table, n) == Seq::<(usize, Option<Cid>, Option<Cid>)>::empty(),
    decreases n,
{
    if n > 0 {
        lemma_no_changes_upto(table, (n - 1) as nat);
    }
}

/// The pages that changed from `a` to `b` are those that changed from `b`
/// to `a`.
pub proof fn law_diff_names_the_same_pages_both_ways(a: Seq<Option<Cid>>, b: Seq<Option<Cid>>)
    requires
        a.len() <= usize::MAX,
        b.len() <= usize::MAX,
    ensures
        changed_pages(changes(a, b)) == changed_pages(changes(b, a)),
{
    let n: nat = if a.len() >= b.len() { a.len() } else { b.len() };
    lemma_changes_upto(a, b, n);
    lemma_changes_upto(b, a, n);
    let ab = changes_upto(a, b, n);
    let ba = changes_upto(b, a, n);
    assert forall|p: int| changed_pages(ab).contains(p) == changed_pages(ba).contains(p) by {
        if changed_pages(ab).contains(p) {
            let k = choose|k: int| 0 <= k < ab.len() && #[trigger] ab[k].0 == p;
            assert(entry_at(b, p) != entry_at(a, p));
            assert(changed_pages(ba).contains(p));
        }
        if changed_pages(ba).contains(p) {
            let k = choose|k: int| 0 <= k < ba.len() && #[trigger] ba[k].0 == p;
            assert(entry_at(a, p) != entry_at(b, p));
            assert(changed_pages(ab).contains(p));
        }
    }
    assert(changed_pages(ab) =~= changed_pages(ba));
}

/// The digest bytes of the entries say which entries they are.
pub proof fn lemma_raw_entries_injective(a: Seq<Option<Cid>>, b: Seq<Option<Cid>>)
    requires
        raw_entries(a) == raw_entries(b),
    ensures
        a == b,
{
    assert(a.len() == raw_entries(a).len());
    assert(b.len() == raw_entries(b).len());
    assert forall|i: int| 0 <= i < a.len() implies a[i] == b[i] by {
        assert(raw_entries(a)[i] == raw_entries(b)[i]);
        match (a[i], b[i]) {
            (Some(x), Some(y)) => {
                assert(x@ == y@);
                assert(x.0 =~= y.0);
            },
            _ => {},
        }
    }
    assert(a =~= b);
}

/// The entries of a table are digests of 32 bytes.
pub proof fn lemma_raw_entries_sized(entries: Seq<Option<Cid>>)
    ensures
        digests_sized(raw_entries(entries)),
        raw_entries(entries).len() == entries.len(),
{
    assert forall|i: int| 0 <= i < raw_entries(entries).len() implies (#[trigger] raw_entries(
        entries,
    )[i] matches Some(d) ==> d.len() == 32) by {
        match entries[i] {
            Some(cid) => {
                vstd::array::array_len_matches_n(&cid.0);
            },
            None => {},
        }
    }
}

/// Reading entries back from their serialized form gives the entries,
/// whatever bytes follow.
pub proof fn lemma_entries_round_trip(entries: Seq<Option<Seq<u8>>>, rest: Seq<u8>)
    requires
        digests_sized(entries),
    ensures
        entries_decoding(entries_encoding(entries) + rest, entries.len()) == Some(entries),
    decreases entries.len(),
{
    if entries.len() > 0 {
        let tail = entries.drop_first();
        let bytes = entries_encoding(entries) + rest;
        assert(digests_sized(tail)) by {
            assert forall|i: int| 0 <= i < tail.len() implies (#[trigger] tail[i] matches Some(d)
                ==> d.len() == 32) by {
                assert(tail[i] == entries[i + 1]);
            }
        }
        lemma_entries_round_trip(tail, rest);
        match entries[0] {
            None => {
                assert(bytes[0] == 0);
                assert(bytes.skip(1) =~= entries_encoding(tail) + rest);
                assert(seq![None::<Seq<u8>>] + tail =~= entries);
            },
            Some(digest) => {
                assert(digest.len() == 32);
                assert(bytes[0] == 1);
                assert(bytes.subrange(1, 33) =~= digest);
                assert(bytes.skip(33) =~= entries_encoding(tail) + rest);
                assert(seq![Some(digest)] + tail =~= entries);
            },
        }
    } else {
        assert(entries =~= Seq::empty());
    }
}

/// Reading a serialized table back gives the table, whatever bytes follow
/// it.
pub proof fn lemma_table_round_trip(entries: Seq<Option<Seq<u8>>>, rest: Seq<u8>)
    requires
        digests_sized(entries),
        entries.len() <= u64::MAX,
    ensures
        table_decoding(table_encoding(entries) + rest) == Some(entries),
{
    lemma_auto_spec_u64_to_from_le_bytes();
    let count = spec_u64_to_le_bytes(entries.len() as u64);
    let bytes = table_encoding(entries) + rest;
    assert(bytes.subrange(0, 8) =~= count);
    assert(bytes.skip(8) =~= entries_encoding(entries) + rest);
    lemma_entries_round_trip(entries, rest);
}

/// A table read back from its serialized form is the table that was
/// serialized: `read` stands for any table that `from_bytes` can return on
/// the bytes that `to_bytes` gives for `table`.
pub proof fn law_table_round_trip(table: Seq<Option<Cid>>, read: Seq<Option<Cid>>)
    requires
        table.len() <= u64::MAX,
        Some(raw_entries(read)) == table_decoding(table_encoding(raw_entries(table))),
    ensures
        table_decoding(table_encoding(raw_entries(table))) is Some,
        read == table,
{
    lemma_raw_entries_sized(table);
    lemma_table_round_trip(raw_entries(table), Seq::empty());
    assert(table_encoding(raw_entries(table)) + Seq::<u8>::empty() =~= table_encoding(
        raw_entries(table),
    ));
    lemma_raw_entries_injective(read, table);
}

} // verus!
