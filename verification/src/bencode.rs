//! Zero-copy Bencode decoder over a borrowed byte buffer.
//!
//! A [`Bencode`] wraps a byte slice and offers `eat_*` methods that consume
//! one value from the front and hand back the remainder. Lists and
//! dictionaries come back as lazy cursors ([`List`], [`Dict`]) over the bytes
//! of their body.

use vstd::prelude::*;

verus! {

/// Failures of the Bencode and KRPC decoders.
#[derive(Debug, PartialEq, Eq)]
pub enum DecodingError {
    UnknownError,
    MissingRequiredField,
    RequiredFieldOfWrongType,
    InvalidStringLength,
    InvalidInteger,
    UnexpectedEOF,
}

/// Index of the first occurrence of `b` in `s`, if any.
pub open spec fn find_byte(s: Seq<u8>, b: u8) -> Option<int>
    decreases s.len(),
{
    if s.len() == 0 {
        None
    } else if s[0] == b {
        Some(0int)
    } else {
        match find_byte(s.drop_first(), b) {
            None => None,
            Some(i) => Some(i + 1),
        }
    }
}

proof fn lemma_find_byte_props(s: Seq<u8>, b: u8)
    ensures
        match find_byte(s, b) {
            Some(i) => 0 <= i < s.len() && s[i] == b && (forall|j: int|
                #![trigger s[j]]
                0 <= j < i ==> s[j] != b),
            None => forall|j: int| #![trigger s[j]] 0 <= j < s.len() ==> s[j] != b,
        },
    decreases s.len(),
{
    if s.len() == 0 {
    } else if s[0] == b {
    } else {
        lemma_find_byte_props(s.drop_first(), b);
        assert(forall|j: int|
            #![trigger s[j]]
            1 <= j < s.len() ==> s[j] == s.drop_first()[j - 1]);
    }
}

/// A scan that stopped at `k` pins down what [`find_byte`] returns.
pub proof fn lemma_find_byte(s: Seq<u8>, b: u8, k: int)
    requires
        0 <= k <= s.len(),
        forall|j: int| 0 <= j < k ==> s[j] != b,
        k < s.len() ==> s[k] == b,
    ensures
        k == s.len() ==> find_byte(s, b) is None,
        k < s.len() ==> find_byte(s, b) == Some(k),
    decreases k + 1,
{
    if s.len() == 0 {
    } else if k == 0 {
    } else {
        lemma_find_byte(s.drop_first(), b, k - 1);
    }
}

/// True when `s` is one or more ASCII decimal digits.
pub open spec fn is_digits(s: Seq<u8>) -> bool {
    s.len() > 0 && forall|i: int| 0 <= i < s.len() ==> 0x30 <= #[trigger] s[i] <= 0x39
}

/// Numeric value of the digit string `s`.
pub open spec fn dec_value(s: Seq<u8>) -> int
    recommends
        is_digits(s),
    decreases s.len(),
{
    if s.len() == 0 {
        0
    } else {
        dec_value(s.drop_last()) * 10 + (s.last() - 0x30)
    }
}

/// Length prefixes parse as unsigned decimals that fit the machine word.
pub open spec fn parse_len(s: Seq<u8>) -> Option<int> {
    if is_digits(s) && dec_value(s) <= usize::MAX {
        Some(dec_value(s))
    } else {
        None
    }
}

fn parse_usize(s: &[u8]) -> (r: Option<usize>)
    ensures
        match parse_len(s@) {
            Some(v) => r matches Some(u) && u == v,
            None => r is None,
        },
{
    let n = s.len();
    if n == 0 {
        return None;
    }
    let mut acc: usize = 0;
    let mut i: usize = 0;
    while i < n
        invariant
            0 <= i <= n,
            n == s@.len(),
            forall|j: int| 0 <= j < i ==> 0x30 <= #[trigger] s@[j] <= 0x39,
            acc == dec_value(s@.take(i as int)),
        decreases n - i,
    {
        let c = s[i];
        if c < 0x30 || c > 0x39 {
            return None;
        }
        let d = (c - 0x30) as usize;
        if acc > (usize::MAX - d) / 10 {
            // The value overflows the machine word; if the whole text is
            // digits, its value is at least this prefix's and out of range.
            proof {
                assert(acc * 10 + d > usize::MAX);
                assert(s@.take(i as int + 1).drop_last() =~= s@.take(i as int));
                assert(dec_value(s@.take(i as int + 1)) == acc * 10 + d);
                if is_digits(s@) {
                    lemma_dec_value_monotone(s@, i as int + 1);
                }
            }
            return None;
        }
        acc = acc * 10 + d;
        proof {
            assert(s@.take(i as int + 1).drop_last() =~= s@.take(i as int));
        }
        i = i + 1;
    }
    proof {
        assert(s@.take(n as int) =~= s@);
    }
    Some(acc)
}

proof fn lemma_dec_value_monotone(s: Seq<u8>, k: int)
    requires
        is_digits(s),
        0 <= k <= s.len(),
    ensures
        dec_value(s.take(k)) <= dec_value(s),
    decreases s.len() - k,
{
    if k < s.len() {
        lemma_dec_value_monotone(s, k + 1);
        assert(s.take(k + 1).drop_last() =~= s.take(k));
        assert(dec_value(s.take(k + 1)) == dec_value(s.take(k)) * 10 + (s[k] - 0x30));
        assert(dec_value(s.take(k)) * 10 >= dec_value(s.take(k))) by {
            lemma_dec_value_nonneg(s.take(k));
        }
    } else {
        assert(s.take(k) =~= s);
    }
}

proof fn lemma_dec_value_nonneg(s: Seq<u8>)
    requires
        forall|i: int| 0 <= i < s.len() ==> 0x30 <= #[trigger] s[i] <= 0x39,
    ensures
        dec_value(s) >= 0,
    decreases s.len(),
{
    if s.len() > 0 {
        lemma_dec_value_nonneg(s.drop_last());
        assert(forall|i: int|
            0 <= i < s.drop_last().len() ==> 0x30 <= #[trigger] s.drop_last()[i] <= 0x39);
    }
}

/// Integer bodies parse as an optional `-` sign and decimal digits, within
/// the signed 64-bit range.
pub open spec fn parse_int(s: Seq<u8>) -> Option<i64> {
    if s.len() >= 1 && s[0] == 0x2d {
        let digits = s.drop_first();
        if is_digits(digits) && -dec_value(digits) >= i64::MIN {
            Some((-dec_value(digits)) as i64)
        } else {
            None
        }
    } else if is_digits(s) && dec_value(s) <= i64::MAX {
        Some(dec_value(s) as i64)
    } else {
        None
    }
}

fn parse_i64(s: &[u8]) -> (r: Option<i64>)
    ensures
        match parse_int(s@) {
            Some(v) => r matches Some(u) && u == v,
            None => r is None,
        },
{
    let n = s.len();
    if n >= 1 && s[0] == 0x2d {
        let digits = &s[1..n];
        assert(digits@ =~= s@.drop_first());
        match parse_u63(digits) {
            Some(v) => {
                proof {
                    lemma_dec_value_nonneg(digits@);
                }
                if v == 0x8000_0000_0000_0000 {
                    Some(i64::MIN)
                } else {
                    Some(-(v as i64))
                }
            },
            None => None,
        }
    } else {
        match parse_u63(s) {
            Some(v) => if v <= i64::MAX as u64 {
                Some(v as i64)
            } else {
                None
            },
            None => None,
        }
    }
}

spec fn parse_u63_spec(s: Seq<u8>) -> Option<int> {
    if is_digits(s) && dec_value(s) <= 0x8000_0000_0000_0000 {
        Some(dec_value(s))
    } else {
        None
    }
}

fn parse_u63(s: &[u8]) -> (r: Option<u64>)
    ensures
        match parse_u63_spec(s@) {
            Some(v) => r matches Some(u) && u == v,
            None => r is None,
        },
{
    let n = s.len();
    if n == 0 {
        return None;
    }
    let bound: u64 = 0x8000_0000_0000_0000;
    let mut acc: u64 = 0;
    let mut i: usize = 0;
    while i < n
        invariant
            0 <= i <= n,
            n == s@.len(),
            acc <= bound,
            bound == 0x8000_0000_0000_0000u64,
            forall|j: int| 0 <= j < i ==> 0x30 <= #[trigger] s@[j] <= 0x39,
            acc == dec_value(s@.take(i as int)),
        decreases n - i,
    {
        let c = s[i];
        if c < 0x30 || c > 0x39 {
            return None;
        }
        let d = (c - 0x30) as u64;
        if acc > (bound - d) / 10 {
            proof {
                assert(acc * 10 + d > bound);
                assert(s@.take(i as int + 1).drop_last() =~= s@.take(i as int));
                assert(dec_value(s@.take(i as int + 1)) == acc * 10 + d);
                if is_digits(s@) {
                    lemma_dec_value_monotone(s@, i as int + 1);
                }
            }
            return None;
        }
        acc = acc * 10 + d;
        proof {
            assert(s@.take(i as int + 1).drop_last() =~= s@.take(i as int));
        }
        i = i + 1;
    }
    proof {
        assert(s@.take(n as int) =~= s@);
    }
    Some(acc)
}

/// Consuming a string `<len>:<bytes>` from the front of `s`: the value bytes
/// and the remainder, or the exact error.
pub open spec fn spec_eat_str(s: Seq<u8>) -> Result<(Seq<u8>, Seq<u8>), DecodingError> {
    match find_byte(s, 0x3a) {
        None => Err(DecodingError::UnexpectedEOF),
        Some(c) => {
            let digits = s.take(c);
            let rest = s.skip(c + 1);
            match parse_len(digits) {
                None => Err(DecodingError::InvalidStringLength),
                Some(len) => if rest.len() < len {
                    Err(DecodingError::InvalidStringLength)
                } else {
                    Ok((rest.take(len), rest.skip(len)))
                },
            }
        },
    }
}

/// Consuming an integer `i<digits>e` from the front of `s`: the digit bytes
/// (sign included, not yet parsed) and the remainder, or the exact error.
pub open spec fn spec_eat_integer(s: Seq<u8>) -> Result<(Seq<u8>, Seq<u8>), DecodingError> {
    if s.len() < 1 || s[0] != 0x69 {
        Err(DecodingError::UnknownError)
    } else {
        match find_byte(s, 0x65) {
            None => Err(DecodingError::UnexpectedEOF),
            Some(e) => Ok((s.subrange(1, e), s.skip(e + 1))),
        }
    }
}

proof fn lemma_eat_str_shrinks(s: Seq<u8>)
    ensures
        spec_eat_str(s) matches Ok(p) ==> p.1.len() < s.len(),
{
    lemma_find_byte_props(s, 0x3a);
    match find_byte(s, 0x3a) {
        Some(c) => {
            let digits = s.take(c);
            if is_digits(digits) {
                lemma_dec_value_nonneg(digits);
            }
        },
        None => {},
    }
}

proof fn lemma_eat_integer_shrinks(s: Seq<u8>)
    ensures
        spec_eat_integer(s) matches Ok(p) ==> p.1.len() < s.len(),
{
    lemma_find_byte_props(s, 0x65);
}

/// Spec-level shape of one decoded Bencode value. A dictionary or list is
/// represented by its cursor: the bytes following its opening tag.
pub enum ValueModel {
    Str(Seq<u8>),
    Int(i64),
    Dict(Seq<u8>),
    List(Seq<u8>),
}

/// Consuming a dictionary `d...e` from the front of `s`: the cursor over its
/// body and the remainder past the matching terminator.
pub open spec fn spec_eat_dict(s: Seq<u8>) -> Result<(Seq<u8>, Seq<u8>), DecodingError>
    decreases s.len(), 0int,
{
    if s.len() < 1 || s[0] != 0x64 {
        Err(DecodingError::UnknownError)
    } else {
        let inner = s.skip(1);
        let rem = spec_scan_pairs(inner);
        if rem.len() >= 1 && rem[0] == 0x65 {
            Ok((inner, rem.skip(1)))
        } else {
            Err(DecodingError::UnknownError)
        }
    }
}

/// Consuming a list `l...e` from the front of `s`, as [`spec_eat_dict`].
pub open spec fn spec_eat_list(s: Seq<u8>) -> Result<(Seq<u8>, Seq<u8>), DecodingError>
    decreases s.len(), 0int,
{
    if s.len() < 1 || s[0] != 0x6c {
        Err(DecodingError::UnknownError)
    } else {
        let inner = s.skip(1);
        let rem = spec_scan_items(inner);
        if rem.len() >= 1 && rem[0] == 0x65 {
            Ok((inner, rem.skip(1)))
        } else {
            Err(DecodingError::UnknownError)
        }
    }
}

/// Consuming one value of any shape, dispatching on the first byte.
pub open spec fn spec_eat_any(s: Seq<u8>) -> Result<(ValueModel, Seq<u8>), DecodingError>
    decreases s.len(), 1int,
{
    if s.len() == 0 {
        Err(DecodingError::UnknownError)
    } else if s[0] == 0x64 {
        match spec_eat_dict(s) {
            Ok(p) => Ok((ValueModel::Dict(p.0), p.1)),
            Err(e) => Err(e),
        }
    } else if 0x30 <= s[0] && s[0] <= 0x39 {
        match spec_eat_str(s) {
            Ok(p) => Ok((ValueModel::Str(p.0), p.1)),
            Err(e) => Err(e),
        }
    } else if s[0] == 0x6c {
        match spec_eat_list(s) {
            Ok(p) => Ok((ValueModel::List(p.0), p.1)),
            Err(e) => Err(e),
        }
    } else if s[0] == 0x69 {
        match spec_eat_integer(s) {
            Ok(p) => match parse_int(p.0) {
                Some(v) => Ok((ValueModel::Int(v), p.1)),
                None => Err(DecodingError::InvalidInteger),
            },
            Err(e) => Err(e),
        }
    } else {
        Err(DecodingError::UnknownError)
    }
}

/// Where a scan over dictionary entries stops: at the terminator, at the end
/// of the buffer, or at the first entry that fails to parse. The guards on
/// the recursion only restate that a parsed entry consumes at least one byte.
pub open spec fn spec_scan_pairs(s: Seq<u8>) -> Seq<u8>
    decreases s.len(), 2int,
{
    if s.len() == 0 || s[0] == 0x65 {
        s
    } else {
        match spec_eat_str(s) {
            Err(_) => s,
            Ok(p) => if p.1.len() < s.len() {
                match spec_eat_any(p.1) {
                    Err(_) => s,
                    Ok(q) => if q.1.len() < p.1.len() {
                        spec_scan_pairs(q.1)
                    } else {
                        s
                    },
                }
            } else {
                s
            },
        }
    }
}

/// Where a scan over list items stops, as [`spec_scan_pairs`].
pub open spec fn spec_scan_items(s: Seq<u8>) -> Seq<u8>
    decreases s.len(), 2int,
{
    if s.len() == 0 || s[0] == 0x65 {
        s
    } else {
        match spec_eat_any(s) {
            Err(_) => s,
            Ok(q) => if q.1.len() < s.len() {
                spec_scan_items(q.1)
            } else {
                s
            },
        }
    }
}

/// One step of dictionary iteration: the key, the value, and the cursor past
/// them, or `None` where the iteration stops.
pub open spec fn spec_dict_next(s: Seq<u8>) -> Option<(Seq<u8>, ValueModel, Seq<u8>)> {
    if s.len() == 0 || s[0] == 0x65 {
        None
    } else {
        match spec_eat_str(s) {
            Err(_) => None,
            Ok(p) => match spec_eat_any(p.1) {
                Err(_) => None,
                Ok(q) => Some((p.0, q.0, q.1)),
            },
        }
    }
}

/// One step of list iteration, as [`spec_dict_next`].
pub open spec fn spec_list_next(s: Seq<u8>) -> Option<(ValueModel, Seq<u8>)> {
    if s.len() == 0 || s[0] == 0x65 {
        None
    } else {
        match spec_eat_any(s) {
            Err(_) => None,
            Ok(q) => Some((q.0, q.1)),
        }
    }
}

proof fn lemma_scan_pairs_len(s: Seq<u8>)
    ensures
        spec_scan_pairs(s).len() <= s.len(),
    decreases s.len(), 2int,
{
    if s.len() == 0 || s[0] == 0x65 {
    } else {
        match spec_eat_str(s) {
            Err(_) => {},
            Ok(p) => if p.1.len() < s.len() {
                match spec_eat_any(p.1) {
                    Err(_) => {},
                    Ok(q) => if q.1.len() < p.1.len() {
                        lemma_scan_pairs_len(q.1);
                    } else {
                    },
                }
            } else {
            },
        }
    }
}

proof fn lemma_scan_items_len(s: Seq<u8>)
    ensures
        spec_scan_items(s).len() <= s.len(),
    decreases s.len(), 2int,
{
    if s.len() == 0 || s[0] == 0x65 {
    } else {
        match spec_eat_any(s) {
            Err(_) => {},
            Ok(q) => if q.1.len() < s.len() {
                lemma_scan_items_len(q.1);
            } else {
            },
        }
    }
}

proof fn lemma_eat_dict_shrinks(s: Seq<u8>)
    ensures
        spec_eat_dict(s) matches Ok(p) ==> p.1.len() < s.len(),
{
    if s.len() >= 1 && s[0] == 0x64 {
        lemma_scan_pairs_len(s.skip(1));
    }
}

proof fn lemma_eat_list_shrinks(s: Seq<u8>)
    ensures
        spec_eat_list(s) matches Ok(p) ==> p.1.len() < s.len(),
{
    if s.len() >= 1 && s[0] == 0x6c {
        lemma_scan_items_len(s.skip(1));
    }
}

proof fn lemma_eat_any_shrinks(s: Seq<u8>)
    ensures
        spec_eat_any(s) matches Ok(p) ==> p.1.len() < s.len(),
{
    if s.len() == 0 {
    } else if s[0] == 0x64 {
        lemma_eat_dict_shrinks(s);
    } else if 0x30 <= s[0] && s[0] <= 0x39 {
        lemma_eat_str_shrinks(s);
    } else if s[0] == 0x6c {
        lemma_eat_list_shrinks(s);
    } else if s[0] == 0x69 {
        lemma_eat_integer_shrinks(s);
    } else {
    }
}

/// One parsed entry advances the scan; a stop leaves it in place.
pub proof fn lemma_scan_pairs_step(s: Seq<u8>)
    ensures
        spec_dict_next(s) matches Some(t) ==> spec_scan_pairs(s) == spec_scan_pairs(t.2)
            && t.2.len() < s.len(),
        spec_dict_next(s) is None ==> spec_scan_pairs(s) == s,
{
    if s.len() == 0 || s[0] == 0x65 {
    } else {
        lemma_eat_str_shrinks(s);
        match spec_eat_str(s) {
            Err(_) => {},
            Ok(p) => {
                lemma_eat_any_shrinks(p.1);
            },
        }
    }
}

/// One parsed item advances the scan; a stop leaves it in place.
pub proof fn lemma_scan_items_step(s: Seq<u8>)
    ensures
        spec_list_next(s) matches Some(t) ==> spec_scan_items(s) == spec_scan_items(t.1)
            && t.1.len() < s.len(),
        spec_list_next(s) is None ==> spec_scan_items(s) == s,
{
    if s.len() == 0 || s[0] == 0x65 {
    } else {
        lemma_eat_any_shrinks(s);
    }
}

/// A dictionary entry that parses consumes at least one byte.
pub proof fn lemma_dict_next_shrinks(s: Seq<u8>)
    ensures
        spec_dict_next(s) matches Some(t) ==> t.2.len() < s.len(),
{
    lemma_scan_pairs_step(s);
}


/// The first byte of the buffer, read as a character.
pub open spec fn spec_peek(s: Seq<u8>) -> Option<char> {
    if s.len() == 0 {
        None
    } else {
        Some(s[0] as char)
    }
}

/// Decoding the whole buffer as one dictionary: its cursor, provided nothing
/// follows the matching terminator.
pub open spec fn spec_as_dict(s: Seq<u8>) -> Result<Seq<u8>, DecodingError> {
    match spec_eat_dict(s) {
        Err(e) => Err(e),
        Ok(p) => if p.1.len() > 0 {
            Err(DecodingError::UnknownError)
        } else {
            Ok(p.0)
        },
    }
}

/// Types that serialise themselves to a Bencode byte vector.
pub trait ToBencode {
    fn to_bencode(&self) -> Vec<u8>;
}

/// Types that decode themselves from a Bencode byte buffer.
pub trait FromBencode<'a>: Sized {
    fn from_bencode(serialised: &'a [u8]) -> Result<Self, DecodingError>;
}

/// A borrowed byte buffer holding Bencode-serialised data.
pub struct Bencode<'a> {
    pub buffer: &'a [u8],
}

impl<'a> View for Bencode<'a> {
    type V = Seq<u8>;

    open spec fn view(&self) -> Seq<u8> {
        self.buffer@
    }
}

/// One decoded Bencode value, borrowing from the input buffer.
pub enum Value<'a> {
    String(&'a [u8]),
    Dict(Dict<'a>),
    List(List<'a>),
    Integer(i64),
}

impl<'a> View for Value<'a> {
    type V = ValueModel;

    open spec fn view(&self) -> ValueModel {
        match self {
            Value::String(b) => ValueModel::Str(b@),
            Value::Dict(d) => ValueModel::Dict(d@),
            Value::List(l) => ValueModel::List(l@),
            Value::Integer(v) => ValueModel::Int(*v),
        }
    }
}

/// One key/value entry of a dictionary.
pub struct DictKVPair<'a> {
    pub key: &'a [u8],
    pub value: Value<'a>,
}

/// A restartable cursor over the body of a dictionary.
pub struct Dict<'a> {
    string: Bencode<'a>,
}

impl<'a> View for Dict<'a> {
    type V = Seq<u8>;

    closed spec fn view(&self) -> Seq<u8> {
        self.string@
    }
}

/// A restartable cursor over the body of a list.
pub struct List<'a> {
    string: Bencode<'a>,
}

impl<'a> View for List<'a> {
    type V = Seq<u8>;

    closed spec fn view(&self) -> Seq<u8> {
        self.string@
    }
}

impl<'a> Bencode<'a> {
    pub fn len(&self) -> (r: usize)
        ensures
            r == self@.len(),
    {
        self.buffer.len()
    }

    /// The first byte of the buffer as a character, or `None` at its end.
    pub fn peek(&self) -> (r: Option<char>)
        ensures
            r == spec_peek(self@),
    {
        if self.buffer.len() == 0 {
            None
        } else {
            Some(self.buffer[0] as char)
        }
    }

    /// Consumes a string `<len>:<bytes>`, returning the value bytes and the
    /// remainder. The length prefix must be decimal digits and at least `len`
    /// bytes must follow the `:`.
    pub fn eat_str(&self) -> (r: Result<(&'a [u8], Bencode<'a>), DecodingError>)
        ensures
            match spec_eat_str(self@) {
                Ok(p) => r matches Ok(q) && q.0@ == p.0 && q.1@ == p.1,
                Err(e) => r matches Err(e2) && e2 == e,
            },
    {
        let n = self.buffer.len();
        let mut j: usize = 0;
        while j < n && self.buffer[j] != 0x3a
            invariant
                0 <= j <= n,
                n == self@.len(),
                forall|k: int| #![trigger self@[k]] 0 <= k < j ==> self@[k] != 0x3a,
            decreases n - j,
    {
            j = j + 1;
        }
        proof {
            lemma_find_byte(self@, 0x3a, j as int);
        }
        if j == n {
            return Err(DecodingError::UnexpectedEOF);
        }
        let digits = &self.buffer[0..j];
        proof {
            assert(digits@ =~= self@.take(j as int));
        }
        let len = match parse_usize(digits) {
            Some(v) => v,
            None => {
                return Err(DecodingError::InvalidStringLength);
            },
        };
        proof {
            assert(self@.skip(j as int + 1).len() == n - j - 1);
        }
        if n - j - 1 < len {
            return Err(DecodingError::InvalidStringLength);
        }
        let value = &self.buffer[j + 1..j + 1 + len];
        let rest = &self.buffer[j + 1 + len..n];
        proof {
            assert(value@ =~= self@.skip(j as int + 1).take(len as int));
            assert(rest@ =~= self@.skip(j as int + 1).skip(len as int));
        }
        Ok((value, Bencode { buffer: rest }))
    }

    /// Consumes an integer `i<digits>e`, returning the digit bytes (sign
    /// included, still to be parsed) and the remainder. A buffer that does
    /// not open with `i` is refused; a missing terminator is the end of the
    /// input.
    pub fn eat_integer(&self) -> (r: Result<(&'a [u8], Bencode<'a>), DecodingError>)
        ensures
            match spec_eat_integer(self@) {
                Ok(p) => r matches Ok(q) && q.0@ == p.0 && q.1@ == p.1,
                Err(e) => r matches Err(e2) && e2 == e,
            },
    {
        let n = self.buffer.len();
        if n < 1 || self.buffer[0] != 0x69 {
            return Err(DecodingError::UnknownError);
        }
        let mut j: usize = 0;
        while j < n && self.buffer[j] != 0x65
            invariant
                0 <= j <= n,
                n == self@.len(),
                forall|k: int| #![trigger self@[k]] 0 <= k < j ==> self@[k] != 0x65,
            decreases n - j,
        {
            j = j + 1;
        }
        proof {
            lemma_find_byte(self@, 0x65, j as int);
        }
        if j == n {
            return Err(DecodingError::UnexpectedEOF);
        }
        let digits = &self.buffer[1..j];
        let rest = &self.buffer[j + 1..n];
        proof {
            assert(digits@ =~= self@.subrange(1, j as int));
            assert(rest@ =~= self@.skip(j as int + 1));
        }
        Ok((digits, Bencode { buffer: rest }))
    }

    /// Consumes a dictionary `d...e`, returning a restartable cursor over its
    /// body and the remainder past the matching terminator. The body is
    /// walked once to locate the terminator; a body that ends first is
    /// refused.
    pub fn eat_dict(&self) -> (r: Result<(Dict<'a>, Bencode<'a>), DecodingError>)
        ensures
            match spec_eat_dict(self@) {
                Ok(p) => r matches Ok(q) && q.0@ == p.0 && q.1@ == p.1,
                Err(e) => r matches Err(e2) && e2 == e,
            },
        decreases self@.len(), 0int,
    {
        let n = self.buffer.len();
        if n < 1 || self.buffer[0] != 0x64 {
            return Err(DecodingError::UnknownError);
        }
        let inner = &self.buffer[1..n];
        proof {
            assert(inner@ =~= self@.skip(1));
        }
        let mut iter = Dict { string: Bencode { buffer: inner } };
        let mut done = false;
        while !done
            invariant
                n == self@.len(),
                n >= 1,
                iter@.len() <= self@.len() - 1,
                spec_scan_pairs(self@.skip(1)) == spec_scan_pairs(iter@),
                done ==> spec_dict_next(iter@) is None,
            decreases 2 * iter@.len() + if done {
                0int
            } else {
                1int
            },
        {
            proof {
                lemma_scan_pairs_step(iter@);
            }
            match iter.next() {
                Some(_) => {},
                None => {
                    done = true;
                },
            }
        }
        proof {
            lemma_scan_pairs_step(iter@);
        }
        let rem = iter.string.buffer;
        if rem.len() >= 1 && rem[0] == 0x65 {
            let rest = &rem[1..rem.len()];
            proof {
                assert(rest@ =~= spec_scan_pairs(self@.skip(1)).skip(1));
            }
            Ok((Dict { string: Bencode { buffer: inner } }, Bencode { buffer: rest }))
        } else {
            Err(DecodingError::UnknownError)
        }
    }

    /// Consumes a list `l...e`, as [`Bencode::eat_dict`].
    pub fn eat_list(&self) -> (r: Result<(List<'a>, Bencode<'a>), DecodingError>)
        ensures
            match spec_eat_list(self@) {
                Ok(p) => r matches Ok(q) && q.0@ == p.0 && q.1@ == p.1,
                Err(e) => r matches Err(e2) && e2 == e,
            },
        decreases self@.len(), 0int,
    {
        let n = self.buffer.len();
        if n < 1 || self.buffer[0] != 0x6c {
            return Err(DecodingError::UnknownError);
        }
        let inner = &self.buffer[1..n];
        proof {
            assert(inner@ =~= self@.skip(1));
        }
        let mut iter = List { string: Bencode { buffer: inner } };
        let mut done = false;
        while !done
            invariant
                n == self@.len(),
                n >= 1,
                iter@.len() <= self@.len() - 1,
                spec_scan_items(self@.skip(1)) == spec_scan_items(iter@),
                done ==> spec_list_next(iter@) is None,
            decreases 2 * iter@.len() + if done {
                0int
            } else {
                1int
            },
        {
            proof {
                lemma_scan_items_step(iter@);
            }
            match iter.next() {
                Some(_) => {},
                None => {
                    done = true;
                },
            }
        }
        proof {
            lemma_scan_items_step(iter@);
        }
        let rem = iter.string.buffer;
        if rem.len() >= 1 && rem[0] == 0x65 {
            let rest = &rem[1..rem.len()];
            proof {
                assert(rest@ =~= spec_scan_items(self@.skip(1)).skip(1));
            }
            Ok((List { string: Bencode { buffer: inner } }, Bencode { buffer: rest }))
        } else {
            Err(DecodingError::UnknownError)
        }
    }

    /// Consumes one value of any shape, dispatching on the next byte.
    pub fn eat_any(&self) -> (r: Result<(Value<'a>, Bencode<'a>), DecodingError>)
        ensures
            match spec_eat_any(self@) {
                Ok(p) => r matches Ok(q) && q.0@ == p.0 && q.1@ == p.1,
                Err(e) => r matches Err(e2) && e2 == e,
            },
        decreases self@.len(), 1int,
    {
        if self.buffer.len() == 0 {
            return Err(DecodingError::UnknownError);
        }
        let c = self.buffer[0];
        if c == 0x64 {
            match self.eat_dict() {
                Ok((d, b)) => Ok((Value::Dict(d), b)),
                Err(e) => Err(e),
            }
        } else if 0x30 <= c && c <= 0x39 {
            match self.eat_str() {
                Ok((v, b)) => Ok((Value::String(v), b)),
                Err(e) => Err(e),
            }
        } else if c == 0x6c {
            match self.eat_list() {
                Ok((l, b)) => Ok((Value::List(l), b)),
                Err(e) => Err(e),
            }
        } else if c == 0x69 {
            match self.eat_integer() {
                Ok((digits, b)) => match parse_i64(digits) {
                    Some(v) => Ok((Value::Integer(v), b)),
                    None => Err(DecodingError::InvalidInteger),
                },
                Err(e) => Err(e),
            }
        } else {
            Err(DecodingError::UnknownError)
        }
    }

    /// Decodes the whole buffer as a single dictionary; bytes past the
    /// matching terminator are refused.
    pub fn as_dict(&self) -> (r: Result<Dict<'a>, DecodingError>)
        ensures
            match spec_as_dict(self@) {
                Ok(body) => r matches Ok(d) && d@ == body,
                Err(e) => r matches Err(e2) && e2 == e,
            },
    {
        let (dict, leftover) = match self.eat_dict() {
            Ok(t) => t,
            Err(e) => {
                return Err(e);
            },
        };
        if leftover.buffer.len() > 0 {
            Err(DecodingError::UnknownError)
        } else {
            Ok(dict)
        }
    }
}

impl<'a> Dict<'a> {
    /// Yields the next key/value entry, advancing the cursor; `None` at the
    /// terminator, at the end of the buffer, or at an entry that fails to
    /// parse, leaving the cursor in place.
    pub fn next(&mut self) -> (r: Option<DictKVPair<'a>>)
        ensures
            match spec_dict_next(old(self)@) {
                None => r is None && final(self)@ == old(self)@,
                Some(t) => r matches Some(pair) && pair.key@ == t.0 && pair.value@ == t.1
                    && final(self)@ == t.2,
            },
        decreases old(self)@.len(), 2int,
    {
        let stop = match self.string.peek() {
            Some(c) => c == 'e',
            None => true,
        };
        if stop {
            return None;
        }
        let (key, partial1) = match self.string.eat_str() {
            Ok(t) => t,
            Err(_) => {
                return None;
            },
        };
        proof {
            lemma_eat_str_shrinks(self.string@);
        }
        let (value, partial2) = match partial1.eat_any() {
            Ok(t) => t,
            Err(_) => {
                return None;
            },
        };
        self.string = partial2;
        Some(DictKVPair { key, value })
    }
}

impl<'a> List<'a> {
    /// Yields the next item, advancing the cursor, as [`Dict::next`].
    pub fn next(&mut self) -> (r: Option<Value<'a>>)
        ensures
            match spec_list_next(old(self)@) {
                None => r is None && final(self)@ == old(self)@,
                Some(t) => r matches Some(v) && v@ == t.0 && final(self)@ == t.1,
            },
        decreases old(self)@.len(), 2int,
    {
        let stop = match self.string.peek() {
            Some(c) => c == 'e',
            None => true,
        };
        if stop {
            return None;
        }
        let (value, partial) = match self.string.eat_any() {
            Ok(t) => t,
            Err(_) => {
                return None;
            },
        };
        self.string = partial;
        Some(value)
    }
}

} // verus!
