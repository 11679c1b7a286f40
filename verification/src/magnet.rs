//! Magnet URI parser: scheme, percent decoding, URN hash families, and the
//! keying of multiple files within one URI.

use std::borrow::Cow;

use vstd::prelude::*;
use vstd::string::StringSliceAdditionalSpecFns;

use crate::bencode::{find_byte, lemma_find_byte};
use crate::messages::{bytes_eq, utf8_to_string};
use crate::encodings::{
    b32_ok, b32_value, decode_base32, decode_hex, hex_chars_ok, hex_digit_ok, hex_pair_val,
    hex_value, EncodingError,
};

verus! {

/// Failures of the magnet URI parser.
#[derive(Debug, PartialEq, Eq)]
pub enum MagnetURIError {
    InvalidHashCharacter,
    InvalidHashLength,
    InvalidURIScheme,
    InvalidStartCharacter,
    UnknownHashFunction,
    InvalidUseOfReservedChar,
    NotImplemented,
}

/// The account each failure reports.
pub open spec fn spec_description(e: MagnetURIError) -> Seq<char> {
    match e {
        MagnetURIError::InvalidHashCharacter => "Invalid character in hex string"@,
        MagnetURIError::InvalidHashLength => "Hex string was an inappropriate size"@,
        MagnetURIError::InvalidURIScheme => "URI scheme must be \"magnet:\""@,
        MagnetURIError::InvalidStartCharacter => "Magnet URI must start with \"?\""@,
        MagnetURIError::UnknownHashFunction => "URN hash function unknown"@,
        MagnetURIError::InvalidUseOfReservedChar => "Invalid use of reserved character in query string"@,
        MagnetURIError::NotImplemented => "Non-UTF-8 values are not supported"@,
    }
}

impl MagnetURIError {
    /// A short account of the failure, for reporting.
    pub fn description(&self) -> (r: String)
        ensures
            r@ == spec_description(*self),
    {
        match self {
            MagnetURIError::InvalidHashCharacter => String::from_str(
                "Invalid character in hex string",
            ),
            MagnetURIError::InvalidHashLength => String::from_str(
                "Hex string was an inappropriate size",
            ),
            MagnetURIError::InvalidURIScheme => String::from_str(
                "URI scheme must be \"magnet:\"",
            ),
            MagnetURIError::InvalidStartCharacter => String::from_str(
                "Magnet URI must start with \"?\"",
            ),
            MagnetURIError::UnknownHashFunction => String::from_str("URN hash function unknown"),
            MagnetURIError::InvalidUseOfReservedChar => String::from_str(
                "Invalid use of reserved character in query string",
            ),
            MagnetURIError::NotImplemented => String::from_str(
                "Non-UTF-8 values are not supported",
            ),
        }
    }
}

impl From<EncodingError> for MagnetURIError {
    fn from(err: EncodingError) -> (r: MagnetURIError) {
        match err {
            EncodingError::InvalidHashCharacter => MagnetURIError::InvalidHashCharacter,
            EncodingError::InvalidHashLength => MagnetURIError::InvalidHashLength,
        }
    }
}

impl vstd::std_specs::convert::FromSpecImpl<EncodingError> for MagnetURIError {
    open spec fn obeys_from_spec() -> bool {
        true
    }

    open spec fn from_spec(err: EncodingError) -> MagnetURIError {
        match err {
            EncodingError::InvalidHashCharacter => MagnetURIError::InvalidHashCharacter,
            EncodingError::InvalidHashLength => MagnetURIError::InvalidHashLength,
        }
    }
}

/// True when the text holds one of the characters `#`, `?`, `&`, which are
/// reserved and may not appear in a query value.
pub open spec fn has_reserved(b: Seq<u8>) -> bool {
    exists|i: int|
        0 <= i < b.len() && (#[trigger] b[i] == 0x23 || b[i] == 0x3f || b[i] == 0x26)
}

/// The percent-and-plus decoding of `b`, scanned left to right: `+` becomes
/// a space; `%` must be followed by two hex characters within the same
/// segment. Reserved characters are rejected before this scan runs.
pub open spec fn uri_decode_scan(b: Seq<u8>) -> Result<Seq<u8>, MagnetURIError>
    decreases b.len(),
{
    if b.len() == 0 {
        Ok(Seq::empty())
    } else if b[0] == 0x25 {
        if b.len() < 3 || b[1] == 0x25 || b[2] == 0x25 {
            Err(MagnetURIError::InvalidUseOfReservedChar)
        } else if !(hex_digit_ok(b[1]) && hex_digit_ok(b[2])) {
            Err(MagnetURIError::InvalidHashCharacter)
        } else {
            match uri_decode_scan(b.skip(3)) {
                Ok(t) => Ok(seq![hex_pair_val(b[1], b[2])] + t),
                Err(e) => Err(e),
            }
        }
    } else {
        let c: u8 = if b[0] == 0x2b {
            0x20
        } else {
            b[0]
        };
        match uri_decode_scan(b.skip(1)) {
            Ok(t) => Ok(seq![c] + t),
            Err(e) => Err(e),
        }
    }
}

/// The decoding of one query value: reserved characters fail it, then the
/// percent-and-plus scan runs.
pub open spec fn spec_uri_decode(b: Seq<u8>) -> Result<Seq<u8>, MagnetURIError> {
    if has_reserved(b) {
        Err(MagnetURIError::InvalidUseOfReservedChar)
    } else {
        uri_decode_scan(b)
    }
}

/// True when the text holds a `+` or a `%`, so that decoding must allocate.
pub open spec fn needs_copy(b: Seq<u8>) -> bool {
    exists|i: int| 0 <= i < b.len() && (#[trigger] b[i] == 0x2b || b[i] == 0x25)
}

/// A text without `+` or `%` decodes to itself.
proof fn lemma_uri_decode_plain(b: Seq<u8>)
    requires
        !needs_copy(b),
    ensures
        uri_decode_scan(b) == Ok::<Seq<u8>, MagnetURIError>(b),
    decreases b.len(),
{
    if b.len() == 0 {
        assert(uri_decode_scan(b) == Ok::<Seq<u8>, MagnetURIError>(Seq::<u8>::empty()));
        assert(b =~= Seq::<u8>::empty());
    } else {
        assert(b[0] != 0x25 && b[0] != 0x2b);
        assert(!needs_copy(b.skip(1))) by {
            assert(forall|i: int|
                0 <= i < b.skip(1).len() ==> #[trigger] b.skip(1)[i] == b[i + 1]);
        }
        lemma_uri_decode_plain(b.skip(1));
        assert(seq![b[0]] + b.skip(1) =~= b);
    }
}

/// One decoded query value, borrowed where no copy was needed.
enum DecodedBytes<'x> {
    Borrowed(&'x [u8]),
    Owned(Vec<u8>),
}

impl<'x> View for DecodedBytes<'x> {
    type V = Seq<u8>;

    closed spec fn view(&self) -> Seq<u8> {
        match self {
            DecodedBytes::Borrowed(b) => b@,
            DecodedBytes::Owned(v) => v@,
        }
    }
}

fn scan_for(b: &[u8], x1: u8, x2: u8, x3: u8) -> (r: bool)
    ensures
        r == exists|i: int|
            0 <= i < b@.len() && (#[trigger] b@[i] == x1 || b@[i] == x2 || b@[i] == x3),
{
    let n = b.len();
    let mut i: usize = 0;
    while i < n
        invariant
            0 <= i <= n,
            n == b@.len(),
            forall|j: int| 0 <= j < i ==> !(#[trigger] b@[j] == x1 || b@[j] == x2 || b@[j] == x3),
        decreases n - i,
    {
        let c = b[i];
        if c == x1 || c == x2 || c == x3 {
            return true;
        }
        i = i + 1;
    }
    false
}

#[verifier::loop_isolation(false)]
fn uri_decode_segment<'x>(value: &'x [u8]) -> (r: Result<DecodedBytes<'x>, MagnetURIError>)
    ensures
        match spec_uri_decode(value@) {
            Ok(t) => r matches Ok(d) && d@ == t && (d matches DecodedBytes::Borrowed(_) <==> !needs_copy(
                value@,
            )),
            Err(e) => r matches Err(e2) && e2 == e,
        },
{
    if scan_for(value, 0x23, 0x3f, 0x26) {
        return Err(MagnetURIError::InvalidUseOfReservedChar);
    }
    if !scan_for(value, 0x2b, 0x25, 0x25) {
        proof {
            lemma_uri_decode_plain(value@);
        }
        return Ok(DecodedBytes::Borrowed(value));
    }
    let n = value.len();
    let mut out: Vec<u8> = Vec::with_capacity(n);
    let mut i: usize = 0;
    proof {
        assert(value@.skip(0) =~= value@);
        match uri_decode_scan(value@) {
            Ok(t) => {
                assert(Seq::<u8>::empty() + t =~= t);
            },
            Err(_) => {},
        }
    }
    while i < n
        invariant
            0 <= i <= n,
            match uri_decode_scan(value@.skip(i as int)) {
                Ok(t) => uri_decode_scan(value@) == Ok::<Seq<u8>, MagnetURIError>(out@ + t),
                Err(e) => uri_decode_scan(value@) == Err::<Seq<u8>, MagnetURIError>(e),
            },
        decreases n - i,
    {
        let ghost pre = value@.skip(i as int);
        let ghost out0 = out@;
        let c = value[i];
        if c == 0x25 {
            if n - i < 3 || value[i + 1] == 0x25 || value[i + 2] == 0x25 {
                proof {
                    assert(pre[0] == 0x25);
                    assert(pre.len() < 3 || pre[1] == 0x25 || pre[2] == 0x25);
                }
                return Err(MagnetURIError::InvalidUseOfReservedChar);
            }
            let h1 = value[i + 1];
            let h2 = value[i + 2];
            if !((h1 >= 0x30 && h1 <= 0x39) || (h1 >= 0x61 && h1 <= 0x66) || (h1 >= 0x41 && h1
                <= 0x46)) || !((h2 >= 0x30 && h2 <= 0x39) || (h2 >= 0x61 && h2 <= 0x66) || (h2
                >= 0x41 && h2 <= 0x46)) {
                proof {
                    assert(pre[1] == h1 && pre[2] == h2);
                }
                return Err(MagnetURIError::InvalidHashCharacter);
            }
            let hi: u8 = if h1 >= 0x61 {
                h1 - 0x61 + 10
            } else if h1 >= 0x41 {
                h1 - 0x41 + 10
            } else {
                h1 - 0x30
            };
            let lo: u8 = if h2 >= 0x61 {
                h2 - 0x61 + 10
            } else if h2 >= 0x41 {
                h2 - 0x41 + 10
            } else {
                h2 - 0x30
            };
            out.push(hi * 16 + lo);
            proof {
                assert(pre[1] == h1 && pre[2] == h2);
                assert(hi * 16 + lo == hex_pair_val(h1, h2));
                assert(pre.skip(3) =~= value@.skip(i as int + 3));
                match uri_decode_scan(value@.skip(i as int + 3)) {
                    Ok(t2) => {
                        assert(uri_decode_scan(pre) == Ok::<Seq<u8>, MagnetURIError>(
                            seq![hex_pair_val(h1, h2)] + t2,
                        ));
                        assert(out@ + t2 =~= out0 + (seq![hex_pair_val(h1, h2)] + t2));
                    },
                    Err(_) => {},
                }
            }
            i = i + 3;
        } else {
            if c == 0x2b {
                out.push(0x20);
            } else {
                out.push(c);
            }
            proof {
                assert(pre[0] == c);
                let c2: u8 = if pre[0] == 0x2b {
                    0x20
                } else {
                    pre[0]
                };
                assert(out@ == out0 + seq![c2]);
                assert(pre.skip(1) =~= value@.skip(i as int + 1));
                match uri_decode_scan(value@.skip(i as int + 1)) {
                    Ok(t2) => {
                        assert(uri_decode_scan(pre) == Ok::<Seq<u8>, MagnetURIError>(
                            seq![c2] + t2,
                        ));
                        assert(out@ + t2 =~= out0 + (seq![c2] + t2));
                    },
                    Err(_) => {},
                }
            }
            i = i + 1;
        }
    }
    proof {
        assert(value@.skip(n as int) =~= Seq::<u8>::empty());
        assert(out@ + Seq::<u8>::empty() =~= out@);
    }
    Ok(DecodedBytes::Owned(out))
}

/// Decodes one query value: `+` becomes a space and `%HH` the byte `HH`. A
/// value holding a reserved character, or a `%` with fewer than two
/// characters after it, is rejected; a decoded value that is not UTF-8 text
/// is out of scope. Without `+` or `%` the input is handed back borrowed.
pub fn uri_decode_value<'x>(value: &'x str) -> (r: Result<Cow<'x, str>, MagnetURIError>)
    ensures
        match spec_uri_decode(value.spec_bytes()) {
            Ok(t) => if !needs_copy(value.spec_bytes()) {
                r matches Ok(c) && c matches Cow::Borrowed(s) && s@ == value@
            } else if vstd::utf8::valid_utf8(t) {
                r matches Ok(c) && c matches Cow::Owned(s) && s@ == vstd::utf8::decode_utf8(t)
            } else {
                r matches Err(e) && e == MagnetURIError::NotImplemented
            },
            Err(e) => r matches Err(e2) && e2 == e,
        },
{
    match uri_decode_segment(value.as_bytes()) {
        Err(e) => Err(e),
        Ok(DecodedBytes::Borrowed(_)) => Ok(Cow::Borrowed(value)),
        Ok(DecodedBytes::Owned(v)) => match utf8_to_string(v.as_slice()) {
            Some(s) => Ok(Cow::Owned(s)),
            None => Err(MagnetURIError::NotImplemented),
        },
    }
}

/// A content hash carried by a magnet URI's `xt` key.
#[derive(Debug, PartialEq, Eq)]
pub enum MagnetHash {
    SHA1([u8; 20]),
    MD5([u8; 16]),
    BTIH([u8; 20]),
    Invalid,
}

/// Spec-level shape of a [`MagnetHash`].
pub enum HashModel {
    SHA1(Seq<u8>),
    MD5(Seq<u8>),
    BTIH(Seq<u8>),
    Invalid,
}

impl View for MagnetHash {
    type V = HashModel;

    open spec fn view(&self) -> HashModel {
        match self {
            MagnetHash::SHA1(b) => HashModel::SHA1(b@),
            MagnetHash::MD5(b) => HashModel::MD5(b@),
            MagnetHash::BTIH(b) => HashModel::BTIH(b@),
            MagnetHash::Invalid => HashModel::Invalid,
        }
    }
}

pub open spec fn urn_sha1() -> Seq<u8> {
    seq![0x75u8, 0x72, 0x6e, 0x3a, 0x73, 0x68, 0x61, 0x31, 0x3a]
}

pub open spec fn urn_md5() -> Seq<u8> {
    seq![0x75u8, 0x72, 0x6e, 0x3a, 0x6d, 0x64, 0x35, 0x3a]
}

pub open spec fn urn_btih() -> Seq<u8> {
    seq![0x75u8, 0x72, 0x6e, 0x3a, 0x62, 0x74, 0x69, 0x68, 0x3a]
}

/// The hash a URN text names: `urn:sha1:` carries 32 base32 characters,
/// `urn:md5:` 32 hex characters, `urn:btih:` either 40 hex or 32 base32
/// characters. Any other prefix is an unknown hash function.
pub open spec fn spec_magnet_hash(b: Seq<u8>) -> Result<HashModel, MagnetURIError> {
    if b.len() >= 9 && b.subrange(0, 9) == urn_sha1() {
        let rest = b.skip(9);
        if rest.len() != 32 {
            Err(MagnetURIError::InvalidHashLength)
        } else if b32_ok(rest, 20) {
            Ok(HashModel::SHA1(b32_value(rest, 20)))
        } else {
            Err(MagnetURIError::InvalidHashCharacter)
        }
    } else if b.len() >= 8 && b.subrange(0, 8) == urn_md5() {
        let rest = b.skip(8);
        if rest.len() != 32 {
            Err(MagnetURIError::InvalidHashLength)
        } else if hex_chars_ok(rest, 16) {
            Ok(HashModel::MD5(hex_value(rest, 16)))
        } else {
            Err(MagnetURIError::InvalidHashCharacter)
        }
    } else if b.len() >= 9 && b.subrange(0, 9) == urn_btih() {
        let rest = b.skip(9);
        if rest.len() == 40 {
            if hex_chars_ok(rest, 20) {
                Ok(HashModel::BTIH(hex_value(rest, 20)))
            } else {
                Err(MagnetURIError::InvalidHashCharacter)
            }
        } else if rest.len() != 32 {
            Err(MagnetURIError::InvalidHashLength)
        } else if b32_ok(rest, 20) {
            Ok(HashModel::BTIH(b32_value(rest, 20)))
        } else {
            Err(MagnetURIError::InvalidHashCharacter)
        }
    } else {
        Err(MagnetURIError::UnknownHashFunction)
    }
}

fn starts_with(b: &[u8], p: &[u8]) -> (r: bool)
    ensures
        r == (b@.len() >= p@.len() && b@.subrange(0, p@.len() as int) == p@),
{
    let m = p.len();
    if b.len() < m {
        return false;
    }
    let mut i: usize = 0;
    while i < m
        invariant
            0 <= i <= m,
            m == p@.len() <= b@.len(),
            forall|j: int| 0 <= j < i ==> b@[j] == p@[j],
        decreases m - i,
    {
        if b[i] != p[i] {
            proof {
                assert(b@.subrange(0, m as int)[i as int] == b@[i as int]);
            }
            return false;
        }
        i = i + 1;
    }
    proof {
        assert(b@.subrange(0, m as int) =~= p@);
    }
    true
}

fn magnet_hash_from_bytes(b: &[u8]) -> (r: Result<MagnetHash, MagnetURIError>)
    ensures
        match spec_magnet_hash(b@) {
            Ok(h) => r matches Ok(mh) && mh@ == h,
            Err(e) => r matches Err(e2) && e2 == e,
        },
{
    let p_sha1 = [0x75u8, 0x72, 0x6e, 0x3a, 0x73, 0x68, 0x61, 0x31, 0x3a];
    let p_md5 = [0x75u8, 0x72, 0x6e, 0x3a, 0x6d, 0x64, 0x35, 0x3a];
    let p_btih = [0x75u8, 0x72, 0x6e, 0x3a, 0x62, 0x74, 0x69, 0x68, 0x3a];
    proof {
        assert(p_sha1@.subrange(0, 9) =~= urn_sha1());
        assert(p_md5@.subrange(0, 8) =~= urn_md5());
        assert(p_btih@.subrange(0, 9) =~= urn_btih());
    }
    let n = b.len();
    if starts_with(b, &p_sha1[0..9]) {
        let rest = &b[9..n];
        proof {
            assert(rest@ =~= b@.skip(9));
        }
        match decode_base32::<20>(rest) {
            Ok(a) => Ok(MagnetHash::SHA1(a)),
            Err(EncodingError::InvalidHashLength) => Err(MagnetURIError::InvalidHashLength),
            Err(EncodingError::InvalidHashCharacter) => Err(MagnetURIError::InvalidHashCharacter),
        }
    } else if starts_with(b, &p_md5[0..8]) {
        let rest = &b[8..n];
        proof {
            assert(rest@ =~= b@.skip(8));
        }
        match decode_hex::<16>(rest) {
            Ok(a) => Ok(MagnetHash::MD5(a)),
            Err(EncodingError::InvalidHashLength) => Err(MagnetURIError::InvalidHashLength),
            Err(EncodingError::InvalidHashCharacter) => Err(MagnetURIError::InvalidHashCharacter),
        }
    } else if starts_with(b, &p_btih[0..9]) {
        let rest = &b[9..n];
        proof {
            assert(rest@ =~= b@.skip(9));
        }
        if rest.len() == 40 {
            match decode_hex::<20>(rest) {
                Ok(a) => Ok(MagnetHash::BTIH(a)),
                Err(EncodingError::InvalidHashLength) => Err(MagnetURIError::InvalidHashLength),
                Err(EncodingError::InvalidHashCharacter) => Err(
                    MagnetURIError::InvalidHashCharacter,
                ),
            }
        } else {
            match decode_base32::<20>(rest) {
                Ok(a) => Ok(MagnetHash::BTIH(a)),
                Err(EncodingError::InvalidHashLength) => Err(MagnetURIError::InvalidHashLength),
                Err(EncodingError::InvalidHashCharacter) => Err(
                    MagnetURIError::InvalidHashCharacter,
                ),
            }
        }
    } else {
        Err(MagnetURIError::UnknownHashFunction)
    }
}

impl MagnetHash {
    /// Parses a URN text into the hash it names.
    pub fn from_str(s: &str) -> (r: Result<MagnetHash, MagnetURIError>)
        ensures
            match spec_magnet_hash(s.spec_bytes()) {
                Ok(h) => r matches Ok(mh) && mh@ == h,
                Err(e) => r matches Err(e2) && e2 == e,
            },
    {
        magnet_hash_from_bytes(s.as_bytes())
    }
}

/// Spec-level shape of a [`MagnetFile`].
pub struct FileModel {
    pub hash: HashModel,
    pub display_name: Seq<char>,
}

/// One file named by a magnet URI: its content hash and display name.
#[derive(Debug, PartialEq, Eq)]
pub struct MagnetFile {
    hash: MagnetHash,
    display_name: String,
}

impl View for MagnetFile {
    type V = FileModel;

    closed spec fn view(&self) -> FileModel {
        FileModel { hash: self.hash@, display_name: self.display_name@ }
    }
}

impl Default for MagnetFile {
    /// A file with no hash and an empty name, filled in as its keys arrive.
    fn default() -> (r: MagnetFile)
        ensures
            r@ == (FileModel { hash: HashModel::Invalid, display_name: Seq::<char>::empty() }),
    {
        MagnetFile { hash: MagnetHash::Invalid, display_name: String::new() }
    }
}

/// The files a magnet URI names.
#[derive(Debug, PartialEq, Eq)]
pub struct MagnetFiles {
    files: Vec<MagnetFile>,
}

impl View for MagnetFiles {
    type V = Seq<FileModel>;

    closed spec fn view(&self) -> Seq<FileModel> {
        Seq::new(self.files@.len(), |i: int| self.files@[i]@)
    }
}

/// Index of the first entry under `key` in the keyed accumulator.
pub open spec fn find_key(acc: Seq<(Seq<u8>, FileModel)>, key: Seq<u8>) -> Option<int>
    decreases acc.len(),
{
    if acc.len() == 0 {
        None
    } else if acc[0].0 == key {
        Some(0int)
    } else {
        match find_key(acc.drop_first(), key) {
            None => None,
            Some(i) => Some(i + 1),
        }
    }
}

proof fn lemma_find_key(acc: Seq<(Seq<u8>, FileModel)>, key: Seq<u8>, k: int)
    requires
        0 <= k <= acc.len(),
        forall|j: int| 0 <= j < k ==> (#[trigger] acc[j]).0 != key,
        k < acc.len() ==> acc[k].0 == key,
    ensures
        k == acc.len() ==> find_key(acc, key) is None,
        k < acc.len() ==> find_key(acc, key) == Some(k),
    decreases k + 1,
{
    if acc.len() == 0 {
    } else if k == 0 {
    } else {
        lemma_find_key(acc.drop_first(), key, k - 1);
    }
}

/// Setting the hash of the file under `key`: a fresh entry where none
/// exists, else the entry's hash replaced.
pub open spec fn upd_hash(
    acc: Seq<(Seq<u8>, FileModel)>,
    key: Seq<u8>,
    h: HashModel,
) -> Seq<(Seq<u8>, FileModel)> {
    match find_key(acc, key) {
        Some(i) => acc.update(i, (key, FileModel { hash: h, display_name: acc[i].1.display_name })),
        None => acc.push((key, FileModel { hash: h, display_name: Seq::empty() })),
    }
}

/// Setting the display name of the file under `key`, as [`upd_hash`].
pub open spec fn upd_name(
    acc: Seq<(Seq<u8>, FileModel)>,
    key: Seq<u8>,
    nm: Seq<char>,
) -> Seq<(Seq<u8>, FileModel)> {
    match find_key(acc, key) {
        Some(i) => acc.update(i, (key, FileModel { hash: acc[i].1.hash, display_name: nm })),
        None => acc.push((key, FileModel { hash: HashModel::Invalid, display_name: nm })),
    }
}

/// A decoded query value must also be UTF-8 text before it is used.
pub open spec fn spec_pair_value(b: Seq<u8>) -> Result<Seq<u8>, MagnetURIError> {
    match spec_uri_decode(b) {
        Err(e) => Err(e),
        Ok(t) => if !vstd::utf8::valid_utf8(t) {
            Err(MagnetURIError::NotImplemented)
        } else {
            Ok(t)
        },
    }
}

pub open spec fn pre_xt() -> Seq<u8> {
    seq![0x78u8, 0x74]
}

pub open spec fn pre_xt_dot() -> Seq<u8> {
    seq![0x78u8, 0x74, 0x2e]
}

pub open spec fn pre_dn() -> Seq<u8> {
    seq![0x64u8, 0x6e]
}

pub open spec fn pre_dn_dot() -> Seq<u8> {
    seq![0x64u8, 0x6e, 0x2e]
}

/// The file index a key selects: the part after `xt.`/`dn.`, or `1` when
/// the key has no such suffix.
pub open spec fn spec_file_key(key: Seq<u8>, dotted: Seq<u8>) -> Seq<u8> {
    if key.len() >= 3 && key.subrange(0, 3) == dotted {
        key.skip(3)
    } else {
        seq![0x31u8]
    }
}

/// One `key=value` segment applied to the accumulator. A segment without
/// `=` is ignored; `xt` keys set a hash, `dn` keys a name, others nothing.
pub open spec fn spec_do_segment(seg: Seq<u8>, acc: Seq<(Seq<u8>, FileModel)>) -> Result<
    Seq<(Seq<u8>, FileModel)>,
    MagnetURIError,
> {
    match find_byte(seg, 0x3d) {
        None => Ok(acc),
        Some(eq) => {
            let key = seg.take(eq);
            let val = seg.skip(eq + 1);
            match spec_pair_value(val) {
                Err(e) => Err(e),
                Ok(t) => if key.len() >= 2 && key.subrange(0, 2) == pre_xt() {
                    match spec_magnet_hash(t) {
                        Ok(h) => Ok(upd_hash(acc, spec_file_key(key, pre_xt_dot()), h)),
                        Err(e) => Err(e),
                    }
                } else if key.len() >= 2 && key.subrange(0, 2) == pre_dn() {
                    Ok(
                        upd_name(
                            acc,
                            spec_file_key(key, pre_dn_dot()),
                            vstd::utf8::decode_utf8(t),
                        ),
                    )
                } else {
                    Ok(acc)
                },
            }
        },
    }
}

/// The query string split at `&`, each segment applied in order.
pub open spec fn spec_parse_pairs(data: Seq<u8>, acc: Seq<(Seq<u8>, FileModel)>) -> Result<
    Seq<(Seq<u8>, FileModel)>,
    MagnetURIError,
>
    decreases data.len(),
{
    match find_byte(data, 0x26) {
        None => spec_do_segment(data, acc),
        Some(p) => if 0 <= p < data.len() {
            match spec_do_segment(data.take(p), acc) {
                Err(e) => Err(e),
                Ok(a2) => spec_parse_pairs(data.skip(p + 1), a2),
            }
        } else {
            spec_do_segment(data, acc)
        },
    }
}

pub open spec fn magnet_q_prefix() -> Seq<u8> {
    seq![0x6du8, 0x61, 0x67, 0x6e, 0x65, 0x74, 0x3a, 0x3f]
}

pub open spec fn magnet_prefix() -> Seq<u8> {
    seq![0x6du8, 0x61, 0x67, 0x6e, 0x65, 0x74, 0x3a]
}

/// The files a magnet URI text parses to, in the order their keys first
/// appear, or the exact error.
pub open spec fn spec_magnet_files(b: Seq<u8>) -> Result<Seq<FileModel>, MagnetURIError> {
    if b.len() >= 8 && b.subrange(0, 8) == magnet_q_prefix() {
        match spec_parse_pairs(b.skip(8), Seq::empty()) {
            Ok(acc) => Ok(Seq::new(acc.len(), |i: int| acc[i].1)),
            Err(e) => Err(e),
        }
    } else if !(b.len() >= 7 && b.subrange(0, 7) == magnet_prefix()) {
        Err(MagnetURIError::InvalidURIScheme)
    } else {
        Err(MagnetURIError::InvalidStartCharacter)
    }
}

spec fn vec_acc_model(a: Seq<(&[u8], MagnetFile)>) -> Seq<(Seq<u8>, FileModel)> {
    Seq::new(a.len(), |i: int| (a[i].0@, a[i].1@))
}

fn find_entry(acc: &Vec<(&[u8], MagnetFile)>, key: &[u8]) -> (r: Option<usize>)
    ensures
        match find_key(vec_acc_model(acc@), key@) {
            Some(i) => r matches Some(u) && u == i && 0 <= i < acc@.len()
                && vec_acc_model(acc@)[i].0 == key@,
            None => r is None,
        },
{
    let n = acc.len();
    let mut i: usize = 0;
    while i < n
        invariant
            0 <= i <= n,
            n == acc@.len(),
            forall|j: int| 0 <= j < i ==> (#[trigger] vec_acc_model(acc@)[j]).0 != key@,
        decreases n - i,
    {
        if bytes_eq(acc[i].0, key) {
            proof {
                lemma_find_key(vec_acc_model(acc@), key@, i as int);
            }
            return Some(i);
        }
        i = i + 1;
    }
    proof {
        lemma_find_key(vec_acc_model(acc@), key@, n as int);
    }
    None
}

proof fn lemma_remove_insert(s: Seq<(Seq<u8>, FileModel)>, i: int, x: (Seq<u8>, FileModel))
    requires
        0 <= i < s.len(),
    ensures
        s.remove(i).insert(i, x) =~= s.update(i, x),
{
}

#[verifier::loop_isolation(false)]
#[verifier::rlimit(100)]
fn do_segment<'x>(
    seg: &'x [u8],
    acc: Vec<(&'x [u8], MagnetFile)>,
    one: &'x [u8],
) -> (r: Result<Vec<(&'x [u8], MagnetFile)>, MagnetURIError>)
    requires
        one@ == seq![0x31u8],
    ensures
        match spec_do_segment(seg@, vec_acc_model(acc@)) {
            Ok(a2) => r matches Ok(v) && vec_acc_model(v@) == a2,
            Err(e) => r matches Err(e2) && e2 == e,
        },
{
    let mut acc = acc;
    let ghost acc0 = vec_acc_model(acc@);
    let m = seg.len();
    let mut k: usize = 0;
    while k < m && seg[k] != 0x3d
        invariant
            0 <= k <= m,
            forall|j: int| #![trigger seg@[j]] 0 <= j < k ==> seg@[j] != 0x3d,
        decreases m - k,
    {
        k = k + 1;
    }
    proof {
        lemma_find_byte(seg@, 0x3d, k as int);
    }
    if k == m {
        return Ok(acc);
    }
    let key = &seg[0..k];
    let val = &seg[k + 1..m];
    proof {
        assert(key@ =~= seg@.take(k as int));
        assert(val@ =~= seg@.skip(k as int + 1));
    }
    let dec = match uri_decode_segment(val) {
        Ok(d) => d,
        Err(e) => {
            return Err(e);
        },
    };
    let dbytes: &[u8] = match &dec {
        DecodedBytes::Borrowed(bb) => bb,
        DecodedBytes::Owned(v) => v.as_slice(),
    };
    let name: String = match utf8_to_string(dbytes) {
        Some(s) => s,
        None => {
            return Err(MagnetURIError::NotImplemented);
        },
    };
    let pxt = [0x78u8, 0x74];
    let pdn = [0x64u8, 0x6e];
    let pxtd = [0x78u8, 0x74, 0x2e];
    let pdnd = [0x64u8, 0x6e, 0x2e];
    proof {
        assert(pxt@.subrange(0, 2) =~= pre_xt());
        assert(pdn@.subrange(0, 2) =~= pre_dn());
        assert(pxtd@.subrange(0, 3) =~= pre_xt_dot());
        assert(pdnd@.subrange(0, 3) =~= pre_dn_dot());
    }
    if starts_with(key, &pxt[0..2]) {
        let fkey: &[u8] = if starts_with(key, &pxtd[0..3]) {
            &key[3..key.len()]
        } else {
            one
        };
        proof {
            assert(fkey@ =~= spec_file_key(key@, pre_xt_dot()));
        }
        let h = match magnet_hash_from_bytes(dbytes) {
            Ok(h) => h,
            Err(e) => {
                return Err(e);
            },
        };
        match find_entry(&acc, fkey) {
            Some(idx) => {
                let old_entry = acc.remove(idx);
                let ghost mid = vec_acc_model(acc@);
                acc.insert(idx, (old_entry.0, MagnetFile { hash: h, display_name: old_entry.1.display_name }));
                proof {
                    assert(mid =~= acc0.remove(idx as int));
                    assert(vec_acc_model(acc@) =~= mid.insert(
                        idx as int,
                        (old_entry.0@, MagnetFile { hash: h, display_name: old_entry.1.display_name }@),
                    ));
                    lemma_remove_insert(
                        acc0,
                        idx as int,
                        (old_entry.0@, FileModel { hash: h@, display_name: old_entry.1.display_name@ }),
                    );
                    assert(vec_acc_model(acc@) =~= upd_hash(acc0, fkey@, h@));
                }
            },
            None => {
                acc.push((fkey, MagnetFile { hash: h, display_name: String::new() }));
                proof {
                    assert(vec_acc_model(acc@) =~= upd_hash(acc0, fkey@, h@));
                }
            },
        }
        Ok(acc)
    } else if starts_with(key, &pdn[0..2]) {
        let fkey: &[u8] = if starts_with(key, &pdnd[0..3]) {
            &key[3..key.len()]
        } else {
            one
        };
        proof {
            assert(fkey@ =~= spec_file_key(key@, pre_dn_dot()));
        }
        let ghost nm = name@;
        match find_entry(&acc, fkey) {
            Some(idx) => {
                let old_entry = acc.remove(idx);
                let ghost mid = vec_acc_model(acc@);
                acc.insert(idx, (old_entry.0, MagnetFile { hash: old_entry.1.hash, display_name: name }));
                proof {
                    assert(mid =~= acc0.remove(idx as int));
                    assert(vec_acc_model(acc@) =~= mid.insert(
                        idx as int,
                        (old_entry.0@, FileModel { hash: old_entry.1.hash@, display_name: nm }),
                    ));
                    lemma_remove_insert(
                        acc0,
                        idx as int,
                        (old_entry.0@, FileModel { hash: old_entry.1.hash@, display_name: nm }),
                    );
                    assert(vec_acc_model(acc@) =~= upd_name(acc0, fkey@, nm));
                }
            },
            None => {
                acc.push((fkey, MagnetFile { hash: MagnetHash::Invalid, display_name: name }));
                proof {
                    assert(vec_acc_model(acc@) =~= upd_name(acc0, fkey@, nm));
                }
            },
        }
        Ok(acc)
    } else {
        Ok(acc)
    }
}

impl MagnetFiles {
    /// Parses a whole magnet URI: the `magnet:?` prefix, then `&`-separated
    /// `key=value` pairs. `xt`/`xt.<k>` keys carry URN hashes, `dn`/`dn.<k>`
    /// display names; pairs under the same file index merge into one file;
    /// segments without `=` and unknown keys are ignored.
    #[verifier::loop_isolation(false)]
    #[verifier::rlimit(100)]
    pub fn from_str(s: &str) -> (r: Result<MagnetFiles, MagnetURIError>)
        ensures
            match spec_magnet_files(s.spec_bytes()) {
                Ok(fs) => r matches Ok(mf) && mf@ == fs,
                Err(e) => r matches Err(e2) && e2 == e,
            },
    {
        let b = s.as_bytes();
        let p8 = [0x6du8, 0x61, 0x67, 0x6e, 0x65, 0x74, 0x3a, 0x3f];
        let p7 = [0x6du8, 0x61, 0x67, 0x6e, 0x65, 0x74, 0x3a];
        proof {
            assert(p8@.subrange(0, 8) =~= magnet_q_prefix());
            assert(p7@.subrange(0, 7) =~= magnet_prefix());
        }
        if !starts_with(b, &p8[0..8]) {
            if !starts_with(b, &p7[0..7]) {
                return Err(MagnetURIError::InvalidURIScheme);
            }
            return Err(MagnetURIError::InvalidStartCharacter);
        }
        let n = b.len();
        let data = &b[8..n];
        proof {
            assert(data@ =~= b@.skip(8));
        }
        let one = [0x31u8];
        let one_slice: &[u8] = &one[0..1];
        proof {
            assert(one_slice@ =~= seq![0x31u8]);
        }
        let mut acc: Vec<(&[u8], MagnetFile)> = Vec::new();
        let mut pos: usize = 0;
        let mut done = false;
        proof {
            assert(vec_acc_model(acc@) =~= Seq::<(Seq<u8>, FileModel)>::empty());
            assert(data@.skip(0) =~= data@);
        }
        while !done
            invariant
                0 <= pos <= data@.len(),
                done ==> spec_parse_pairs(data@, Seq::empty()) == Ok::<
                    Seq<(Seq<u8>, FileModel)>,
                    MagnetURIError,
                >(vec_acc_model(acc@)),
                !done ==> spec_parse_pairs(data@, Seq::empty()) == spec_parse_pairs(
                    data@.skip(pos as int),
                    vec_acc_model(acc@),
                ),
            decreases 2 * (data@.len() - pos) + if done {
                0int
            } else {
                1int
            },
        {
            let ghost rem = data@.skip(pos as int);
            let nd = data.len();
            let mut j: usize = pos;
            while j < nd && data[j] != 0x26
                invariant
                    pos <= j <= nd,
                    forall|t: int| #![trigger data@[t]] pos <= t < j ==> data@[t] != 0x26,
                decreases nd - j,
            {
                j = j + 1;
            }
            proof {
                assert(forall|t: int|
                    #![trigger rem[t]]
                    0 <= t < j - pos ==> rem[t] == data@[pos + t] && rem[t] != 0x26);
                lemma_find_byte(rem, 0x26, j as int - pos as int);
            }
            let seg = &data[pos..j];
            proof {
                assert(seg@ =~= rem.take(j as int - pos as int));
                if j == nd {
                    assert(seg@ =~= rem);
                }
            }
            let acc2 = match do_segment(seg, acc, one_slice) {
                Ok(a) => a,
                Err(e) => {
                    return Err(e);
                },
            };
            acc = acc2;
            if j == nd {
                done = true;
            } else {
                proof {
                    assert(rem.skip(j as int - pos as int + 1) =~= data@.skip(j as int + 1));
                }
                pos = j + 1;
            }
        }
        let mut files: Vec<MagnetFile> = Vec::new();
        let na = acc.len();
        let ghost accm = vec_acc_model(acc@);
        let mut i: usize = 0;
        while i < na
            invariant
                0 <= i <= na,
                na == acc@.len(),
                accm == vec_acc_model(acc@),
                files@.len() == i,
                forall|j: int| 0 <= j < i ==> (#[trigger] files@[j])@ == accm[j].1,
            decreases na - i,
        {
            let entry = &acc[i];
            files.push(MagnetFile { hash: clone_hash(&entry.1.hash), display_name: entry.1.display_name.clone() });
            i = i + 1;
        }
        let result = MagnetFiles { files };
        proof {
            assert(result@ =~= Seq::new(accm.len(), |t: int| accm[t].1));
        }
        Ok(result)
    }
}

fn clone_hash(h: &MagnetHash) -> (r: MagnetHash)
    ensures
        r@ == h@,
{
    match h {
        MagnetHash::SHA1(a) => MagnetHash::SHA1(*a),
        MagnetHash::MD5(a) => MagnetHash::MD5(*a),
        MagnetHash::BTIH(a) => MagnetHash::BTIH(*a),
        MagnetHash::Invalid => MagnetHash::Invalid,
    }
}

} // verus!
