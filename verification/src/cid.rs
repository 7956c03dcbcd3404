//! Content identifiers, pages and the error type shared by every store.

use vstd::prelude::*;
use vstd::std_specs::cmp::PartialEqSpecImpl;
use vstd::string::StringExecFns;
use vstd::string::StrSliceExecFns;
use crate::text::joined;

verus! {

/// The SHA-256 digest of a byte string, as 32 bytes.
pub uninterp spec fn sha256(data: Seq<u8>) -> Seq<u8>;

/// `sha2::Sha256::digest`: the result is the SHA-256 digest of `data`,
/// copied out of the hasher's output array.
#[verifier::external_body]
fn sha256_digest(data: &[u8]) -> (out: [u8; 32])
    ensures
        out@ == sha256(data@),
{
    let hash = <sha2::Sha256 as sha2::Digest>::digest(data);
    let mut out = [0u8; 32];
    out.copy_from_slice(&hash);
    out
}

/// The value of one lower-case hexadecimal digit.
pub open spec fn hex_digit(nibble: int) -> char {
    if nibble == 0 { '0' } else if nibble == 1 { '1' } else if nibble == 2 { '2' }
    else if nibble == 3 { '3' } else if nibble == 4 { '4' } else if nibble == 5 { '5' }
    else if nibble == 6 { '6' } else if nibble == 7 { '7' } else if nibble == 8 { '8' }
    else if nibble == 9 { '9' } else if nibble == 10 { 'a' } else if nibble == 11 { 'b' }
    else if nibble == 12 { 'c' } else if nibble == 13 { 'd' } else if nibble == 14 { 'e' }
    else { 'f' }
}

/// Lower-case hexadecimal text of a byte string: two digits per byte, the
/// high nibble first.
pub open spec fn hex_text(data: Seq<u8>) -> Seq<char> {
    Seq::new(
        2 * data.len(),
        |i: int|
            if i % 2 == 0 {
                hex_digit(data[i / 2] as int / 16)
            } else {
                hex_digit(data[i / 2] as int % 16)
            },
    )
}

/// The value of a hexadecimal digit in either case, `None` for any other
/// character.
pub open spec fn hex_value(c: char) -> Option<int> {
    if '0' <= c <= '9' {
        Some(c as int - '0' as int)
    } else if 'a' <= c <= 'f' {
        Some(c as int - 'a' as int + 10)
    } else if 'A' <= c <= 'F' {
        Some(c as int - 'A' as int + 10)
    } else {
        None
    }
}

/// Whether `text` is an even number of hexadecimal digits.
pub open spec fn is_hex(text: Seq<char>) -> bool {
    &&& text.len() % 2 == 0
    &&& forall|i: int| 0 <= i < text.len() ==> (#[trigger] hex_value(text[i])) is Some
}

/// The bytes that hexadecimal `text` stands for.
pub open spec fn hex_bytes(text: Seq<char>) -> Seq<u8> {
    Seq::new(
        text.len() / 2,
        |i: int| (hex_value(text[2 * i])->0 * 16 + hex_value(text[2 * i + 1])->0) as u8,
    )
}

/// Hexadecimal text reads back as the bytes that it was written from.
pub proof fn law_hex_round_trip(data: Seq<u8>)
    ensures
        is_hex(hex_text(data)),
        hex_bytes(hex_text(data)) == data,
{
    let text = hex_text(data);
    assert forall|n: int| 0 <= n < 16 implies hex_value(#[trigger] hex_digit(n)) == Some(n) by {
        assert(hex_digit(n) == '0' || hex_digit(n) == '1' || hex_digit(n) == '2' || hex_digit(n)
            == '3' || hex_digit(n) == '4' || hex_digit(n) == '5' || hex_digit(n) == '6'
            || hex_digit(n) == '7' || hex_digit(n) == '8' || hex_digit(n) == '9' || hex_digit(n)
            == 'a' || hex_digit(n) == 'b' || hex_digit(n) == 'c' || hex_digit(n) == 'd'
            || hex_digit(n) == 'e' || hex_digit(n) == 'f');
    }
    assert forall|i: int| 0 <= i < text.len() implies (#[trigger] hex_value(text[i])) is Some by {
        let byte = data[i / 2] as int;
        if i % 2 == 0 {
            assert(text[i] == hex_digit(byte / 16));
        } else {
            assert(text[i] == hex_digit(byte % 16));
        }
    }
    assert forall|k: int| 0 <= k < data.len() implies hex_bytes(text)[k] == data[k] by {
        let byte = data[k] as int;
        assert(text[2 * k] == hex_digit(byte / 16));
        assert(text[2 * k + 1] == hex_digit(byte % 16));
        assert(hex_value(hex_digit(byte / 16)) == Some(byte / 16));
        assert(hex_value(hex_digit(byte % 16)) == Some(byte % 16));
    }
    assert(hex_bytes(text) =~= data);
}

/// `hex::encode`: two lower-case digits for each byte, in order.
#[verifier::external_body]
fn hex_encode(data: &[u8]) -> (text: String)
    ensures
        text@ == hex_text(data@),
{
    hex::encode(data)
}

/// The error of `hex::decode`.
#[verifier::external_type_specification]
#[verifier::external_body]
pub struct ExFromHexError(hex::FromHexError);

/// `hex::decode`: succeeds exactly on an even number of hexadecimal digits
/// of either case, and then gives one byte for each pair.
#[verifier::external_body]
fn hex_decode(text: &str) -> (res: Result<Vec<u8>, hex::FromHexError>)
    ensures
        res is Ok <==> is_hex(text@),
        res matches Ok(bytes) ==> bytes@ == hex_bytes(text@),
{
    hex::decode(text)
}

/// The `Display` text of a `hex::FromHexError`.
#[verifier::external_body]
fn hex_error_text(e: &hex::FromHexError) -> String {
    e.to_string()
}

/// A text without its leading and trailing white space, where white space is
/// what Unicode calls so.
pub uninterp spec fn white_space_trimmed(text: Seq<char>) -> Seq<char>;

/// `str::trim`: the text without its leading and trailing white space.
#[verifier::external_body]
fn trimmed(text: &str) -> (res: &str)
    ensures
        res@ == white_space_trimmed(text@),
{
    text.trim()
}

/// Content identifier: the SHA-256 digest of a page's bytes.
#[derive(Debug, Clone, Copy, Eq, Hash)]
pub struct Cid(pub [u8; 32]);

impl View for Cid {
    type V = Seq<u8>;

    open spec fn view(&self) -> Seq<u8> {
        self.0@
    }
}

impl PartialEq for Cid {
    fn eq(&self, other: &Cid) -> (r: bool) {
        let mut i: usize = 0;
        while i < 32
            invariant
                i <= 32,
                forall|j: int| 0 <= j < i ==> self.0[j] == other.0[j],
            decreases 32 - i,
        {
            if self.0[i] != other.0[i] {
                return false;
            }
            i += 1;
        }
        assert(self.0 =~= other.0);
        true
    }
}

impl PartialEqSpecImpl for Cid {
    open spec fn obeys_eq_spec() -> bool {
        true
    }

    open spec fn eq_spec(&self, other: &Cid) -> bool {
        *self == *other
    }
}

impl Cid {
    /// The identifier of a byte string: the one whose bytes are its SHA-256
    /// digest.
    pub open spec fn of(data: Seq<u8>) -> Cid {
        choose|c: Cid| c@ == sha256(data)
    }

    /// Whether every byte of the identifier is zero.
    pub open spec fn spec_is_null(&self) -> bool {
        forall|i: int| 0 <= i < 32 ==> self.0[i] == 0
    }

    /// The null identifier, all zero bytes, which stands for "no root".
    pub fn null() -> (cid: Cid)
        ensures
            cid.spec_is_null(),
    {
        Cid([0u8; 32])
    }

    /// Whether this is the null identifier.
    #[verifier::when_used_as_spec(spec_is_null)]
    pub fn is_null(&self) -> (r: bool)
        ensures
            r == self.spec_is_null(),
    {
        let mut i: usize = 0;
        while i < 32
            invariant
                i <= 32,
                forall|j: int| 0 <= j < i ==> self.0[j] == 0,
            decreases 32 - i,
        {
            if self.0[i] != 0 {
                return false;
            }
            i += 1;
        }
        true
    }

    /// Computes the identifier of `data`.
    pub fn from_bytes(data: &[u8]) -> (cid: Cid)
        ensures
            cid == Cid::of(data@),
            cid@ == sha256(data@),
    {
        let cid = Cid(sha256_digest(data));
        proof {
            let chosen = Cid::of(data@);
            assert(cid@ == sha256(data@));
            assert(chosen@ == sha256(data@));
            assert(chosen.0 =~= cid.0);
        }
        cid
    }

    /// The identifier as 64 lower-case hexadecimal digits.
    pub fn to_hex(&self) -> (text: String)
        ensures
            text@ == hex_text(self@),
    {
        hex_encode(vstd::array::array_as_slice(&self.0))
    }

    /// The short form used in messages: the first 16 hexadecimal digits.
    pub fn to_string(&self) -> (text: String)
        ensures
            text@ == hex_text(self@).subrange(0, 16),
    {
        let full = self.to_hex();
        String::from_str(full.as_str().substring_char(0, 16))
    }

    /// Reads an identifier from 64 hexadecimal digits of either case, with
    /// nothing around them. Other text is a storage error.
    pub fn from_digits(digits: &str) -> (res: Result<Cid, PageStoreError>)
        ensures
            res is Ok <==> is_hex(digits@) && digits@.len() == 64,
            res matches Ok(cid) ==> cid@ == hex_bytes(digits@),
            res matches Err(e) ==> e is Storage,
            is_hex(digits@) && digits@.len() != 64 ==> (res matches Err(
                PageStoreError::Storage(msg),
            ) && msg@ == "invalid CID length"@),
    {
        let bytes = match hex_decode(digits) {
            Ok(bytes) => bytes,
            Err(e) => {
                return Err(PageStoreError::Storage(hex_error_text(&e)));
            },
        };
        if bytes.len() != 32 {
            return Err(PageStoreError::Storage(String::from_str("invalid CID length")));
        }
        let mut cid = [0u8; 32];
        let mut i: usize = 0;
        while i < 32
            invariant
                i <= 32,
                bytes.len() == 32,
                forall|j: int| 0 <= j < i ==> cid[j] == bytes[j],
            decreases 32 - i,
        {
            cid[i] = bytes[i];
            i += 1;
        }
        assert(cid@ =~= bytes@);
        Ok(Cid(cid))
    }

    /// Reads an identifier from its hexadecimal text, ignoring white space
    /// around it: what `from_digits` reads from the text without that space.
    pub fn from_hex(text: &str) -> (res: Result<Cid, PageStoreError>)
        ensures
            res is Ok <==> is_hex(white_space_trimmed(text@)) && white_space_trimmed(text@).len()
                == 64,
            res matches Ok(cid) ==> cid@ == hex_bytes(white_space_trimmed(text@)),
            res matches Err(e) ==> e is Storage,
            is_hex(white_space_trimmed(text@)) && white_space_trimmed(text@).len() != 64
                ==> (res matches Err(PageStoreError::Storage(msg)) && msg@
                == "invalid CID length"@),
    {
        Cid::from_digits(trimmed(text))
    }
}

/// A database page: an immutable byte string.
#[derive(Debug, Clone)]
pub struct Page {
    pub data: Vec<u8>,
}

/// What a page store reports when an operation fails.
#[derive(Debug)]
pub enum PageStoreError {
    /// The requested page does not exist in this store.
    NotFound(Cid),
    /// An I/O, serialization, protocol or integrity failure.
    Storage(String),
    /// A native I/O failure, by its message.
    Io(String),
}

impl PageStoreError {
    /// The text of an error, with the text that it carries after a prefix
    /// that names its kind.
    pub open spec fn spec_text(&self) -> Seq<char> {
        match self {
            PageStoreError::NotFound(cid) => "page not found: "@ + hex_text(cid@).subrange(0, 16),
            PageStoreError::Storage(msg) => "storage error: "@ + msg@,
            PageStoreError::Io(msg) => "io error: "@ + msg@,
        }
    }

    /// The message of the error.
    pub fn to_string(&self) -> (text: String)
        ensures
            text@ == self.spec_text(),
    {
        match self {
            PageStoreError::NotFound(cid) => joined("page not found: ", cid.to_string().as_str()),
            PageStoreError::Storage(msg) => joined("storage error: ", msg.as_str()),
            PageStoreError::Io(msg) => joined("io error: ", msg.as_str()),
        }
    }
}

} // verus!
