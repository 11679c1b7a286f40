//! Fixed-length byte-array decoders for hex and RFC 4648 base32 text.

use vstd::prelude::*;
use vstd::string::StringSliceAdditionalSpecFns;

verus! {

/// Failures of the text-to-bytes decoders.
#[derive(Debug, PartialEq, Eq)]
pub enum EncodingError {
    InvalidHashCharacter,
    InvalidHashLength,
}

/// True when `h` is an ASCII hex digit (`0-9`, `a-f`, `A-F`).
pub open spec fn hex_digit_ok(h: u8) -> bool {
    (0x30 <= h <= 0x39) || (0x61 <= h <= 0x66) || (0x41 <= h <= 0x46)
}

/// Numeric value of the ASCII hex digit `h`.
pub open spec fn hex_digit_val(h: u8) -> u8
    recommends
        hex_digit_ok(h),
{
    if 0x30 <= h <= 0x39 {
        (h - 0x30) as u8
    } else if 0x61 <= h <= 0x66 {
        (h - 0x61 + 10) as u8
    } else {
        (h - 0x41 + 10) as u8
    }
}

/// Byte encoded by the hex digit pair `(hi, lo)`.
pub open spec fn hex_pair_val(hi: u8, lo: u8) -> u8
    recommends
        hex_digit_ok(hi),
        hex_digit_ok(lo),
{
    (hex_digit_val(hi) * 16 + hex_digit_val(lo)) as u8
}

fn hex_to_nibble(h: u8) -> (r: Result<u8, EncodingError>)
    ensures
        hex_digit_ok(h) ==> r == Ok::<u8, EncodingError>(hex_digit_val(h)),
        !hex_digit_ok(h) ==> r == Err::<u8, EncodingError>(EncodingError::InvalidHashCharacter),
{
    if h >= 0x30 && h <= 0x39 {
        return Ok(h - 0x30);
    }
    if h >= 0x61 && h <= 0x66 {
        return Ok(h - 0x61 + 10);
    }
    if h >= 0x41 && h <= 0x46 {
        return Ok(h - 0x41 + 10);
    }
    Err(EncodingError::InvalidHashCharacter)
}

/// Decodes one byte from the hex digit pair `(b1, b2)`, rejecting any
/// character outside `0-9a-fA-F`.
pub fn hex_to_byte(b1: u8, b2: u8) -> (r: Result<u8, EncodingError>)
    ensures
        hex_digit_ok(b1) && hex_digit_ok(b2) ==> r == Ok::<u8, EncodingError>(
            hex_pair_val(b1, b2),
        ),
        !(hex_digit_ok(b1) && hex_digit_ok(b2)) ==> r == Err::<u8, EncodingError>(
            EncodingError::InvalidHashCharacter,
        ),
{
    let n1 = hex_to_nibble(b1)?;
    let n2 = hex_to_nibble(b2)?;
    assert(n1 << 4 | n2 == n1 * 16 + n2) by (bit_vector)
        requires
            n1 < 16 && n2 < 16,
    ;
    Ok(n1 << 4 | n2)
}

/// The `2 * LEN` characters of `s` all being hex digits is what a successful
/// hex decode demands.
pub open spec fn hex_chars_ok(s: Seq<u8>, n: int) -> bool {
    forall|i: int| 0 <= i < 2 * n ==> hex_digit_ok(s[i])
}

/// The bytes encoded by the hex digit string `s`, one byte per digit pair.
pub open spec fn hex_value(s: Seq<u8>, n: int) -> Seq<u8>
    recommends
        s.len() == 2 * n,
        hex_chars_ok(s, n),
{
    Seq::new(n as nat, |j: int| hex_pair_val(s[2 * j], s[2 * j + 1]))
}

/// Decodes the `2 * LEN` hex characters of `raw` into `LEN` bytes.
/// The length must match exactly; any character outside `0-9a-fA-F` is
/// rejected.
pub fn decode_hex<const LEN: usize>(raw: &[u8]) -> (r: Result<[u8; LEN], EncodingError>)
    ensures
        raw@.len() != 2 * LEN ==> r == Err::<[u8; LEN], EncodingError>(
            EncodingError::InvalidHashLength,
        ),
        raw@.len() == 2 * LEN && hex_chars_ok(raw@, LEN as int) ==> (r matches Ok(out)
            && out@ == hex_value(raw@, LEN as int)),
        raw@.len() == 2 * LEN && !hex_chars_ok(raw@, LEN as int) ==> r == Err::<
            [u8; LEN],
            EncodingError,
        >(EncodingError::InvalidHashCharacter),
{
    let n = raw.len();
    if n % 2 != 0 || n / 2 != LEN {
        return Err(EncodingError::InvalidHashLength);
    }
    let mut out: [u8; LEN] = [0; LEN];
    let mut i: usize = 0;
    while i < LEN
        invariant
            i <= LEN,
            2 * LEN <= usize::MAX,
            raw@.len() == 2 * LEN,
            out@.len() == LEN,
            forall|j: int| 0 <= j < 2 * i ==> hex_digit_ok(raw@[j]),
            forall|j: int| 0 <= j < i ==> out@[j] == hex_pair_val(raw@[2 * j], raw@[2 * j + 1]),
        decreases LEN - i,
    {
        let b = hex_to_byte(raw[2 * i], raw[2 * i + 1])?;
        out[i] = b;
        i = i + 1;
    }
    assert(out@ =~= hex_value(raw@, LEN as int));
    Ok(out)
}

/// Decodes `2 * LEN` hex characters into `LEN` bytes, rejecting a text of any
/// other length and any character outside `0-9a-fA-F`. Both letter cases are
/// accepted.
pub fn bytes_from_hex<const LEN: usize>(hex: &str) -> (r: Result<[u8; LEN], EncodingError>)
    ensures
        hex.spec_bytes().len() != 2 * LEN ==> r == Err::<[u8; LEN], EncodingError>(
            EncodingError::InvalidHashLength,
        ),
        hex.spec_bytes().len() == 2 * LEN && hex_chars_ok(hex.spec_bytes(), LEN as int) ==> (
        r matches Ok(out) && out@ == hex_value(hex.spec_bytes(), LEN as int)),
        hex.spec_bytes().len() == 2 * LEN && !hex_chars_ok(hex.spec_bytes(), LEN as int) ==> r
            == Err::<[u8; LEN], EncodingError>(EncodingError::InvalidHashCharacter),
{
    decode_hex(hex.as_bytes())
}

/// True when `h` is a character of the RFC 4648 base32 alphabet:
/// `A-Z`, `a-z` (case-insensitive) or `2-7`.
pub open spec fn b32_char_ok(h: u8) -> bool {
    (0x41 <= h <= 0x5a) || (0x61 <= h <= 0x7a) || (0x32 <= h <= 0x37)
}

/// Five-bit value of the base32 character `h`.
pub open spec fn b32_char_val(h: u8) -> u8
    recommends
        b32_char_ok(h),
{
    if 0x41 <= h <= 0x5a {
        (h - 0x41) as u8
    } else if 0x61 <= h <= 0x7a {
        (h - 0x61) as u8
    } else {
        (h - 0x32 + 26) as u8
    }
}

fn base32_decode_char(h: u8) -> (r: Result<u8, EncodingError>)
    ensures
        b32_char_ok(h) ==> r == Ok::<u8, EncodingError>(b32_char_val(h)),
        !b32_char_ok(h) ==> r == Err::<u8, EncodingError>(EncodingError::InvalidHashCharacter),
{
    if h >= 0x61 && h <= 0x7a {
        return Ok(h - 0x61);
    }
    if h >= 0x41 && h <= 0x5a {
        return Ok(h - 0x41);
    }
    if h >= 0x32 && h <= 0x37 {
        return Ok(h - 0x32 + 26);
    }
    Err(EncodingError::InvalidHashCharacter)
}

/// Index of the first character of the padding region for `n` output bytes:
/// characters there and beyond must all be `=`.
pub open spec fn b32_first_pad(n: int) -> int {
    (n * 8 + 4) / 5
}

/// Index of the first character that lies fully inside the last output byte.
pub open spec fn b32_last_byte_start(n: int) -> int {
    ((n - 1) * 8 + 4) / 5
}

/// High contribution of a character with five-bit value `val` standing at bit
/// offset `m = (i*5) % 8` within its output byte.
pub open spec fn b32_high(val: u8, m: u8) -> u8 {
    (val << 3u8) >> m
}

/// Low contribution carried into the following output byte; a shift of eight
/// or more bits leaves nothing.
pub open spec fn b32_low(val: u8, m: u8) -> u8 {
    if m <= 3 {
        0u8
    } else {
        val << ((11 - m) as u8)
    }
}

/// Contribution of input character `i` to output byte `j`.
pub open spec fn b32_contrib(s: Seq<u8>, i: int, j: int) -> u8 {
    let val = b32_char_val(s[i]);
    let m = ((i * 5) % 8) as u8;
    if i * 5 / 8 == j {
        b32_high(val, m)
    } else if i * 5 / 8 + 1 == j {
        b32_low(val, m)
    } else {
        0u8
    }
}

/// Output byte `j`, accumulated from the first `upto` input characters.
pub open spec fn b32_byte(s: Seq<u8>, j: int, upto: int) -> u8
    decreases upto,
{
    if upto <= 0 {
        0u8
    } else {
        b32_byte(s, j, upto - 1) | b32_contrib(s, upto - 1, j)
    }
}

/// The `n` bytes encoded by the base32 text `s`.
pub open spec fn b32_value(s: Seq<u8>, n: int) -> Seq<u8> {
    Seq::new(n as nat, |j: int| b32_byte(s, j, b32_first_pad(n)))
}

/// A base32 text of the right length decodes successfully exactly when every
/// character before the padding region is in the alphabet, the low bits of the
/// characters that overhang the last output byte are zero, and the padding
/// region holds only `=`.
pub open spec fn b32_ok(s: Seq<u8>, n: int) -> bool {
    &&& (forall|i: int| 0 <= i < b32_first_pad(n) ==> b32_char_ok(s[i]))
    &&& (forall|i: int|
        b32_last_byte_start(n) <= i < b32_first_pad(n) ==> b32_low(
            b32_char_val(s[i]),
            ((i * 5) % 8) as u8,
        ) == 0)
    &&& (forall|i: int| b32_first_pad(n) <= i < s.len() ==> s[i] == 0x3d)
}

proof fn lemma_b32_bounds(n: int)
    requires
        n >= 1,
    ensures
        0 <= b32_last_byte_start(n) <= b32_first_pad(n) <= ((n + 4) / 5) * 8,
        5 * b32_last_byte_start(n) <= (n - 1) * 8 + 4 < 5 * b32_last_byte_start(n) + 5,
        5 * b32_first_pad(n) <= n * 8 + 4 < 5 * b32_first_pad(n) + 5,
        5 * ((n + 4) / 5) <= n + 4 < 5 * ((n + 4) / 5) + 5,
    decreases n,
{
    vstd::arithmetic::div_mod::lemma_fundamental_div_mod((n - 1) * 8 + 4, 5);
    vstd::arithmetic::div_mod::lemma_fundamental_div_mod(n * 8 + 4, 5);
    vstd::arithmetic::div_mod::lemma_fundamental_div_mod(n + 4, 5);
    assert(0 <= ((n - 1) * 8 + 4) % 5 < 5);
    assert(0 <= (n * 8 + 4) % 5 < 5);
    assert(0 <= (n + 4) % 5 < 5);
}

proof fn lemma_or_zero(x: u8)
    ensures
        x | 0u8 == x,
{
    assert(x | 0u8 == x) by (bit_vector);
}

/// Decodes the RFC 4648 base32 text `raw` (including its `=` padding) into
/// `LEN` bytes. The text length must be exactly `ceil(LEN/5) * 8`.
pub fn decode_base32<const LEN: usize>(raw: &[u8]) -> (r: Result<[u8; LEN], EncodingError>)
    requires
        1 <= LEN,
        LEN * 8 + 4 <= usize::MAX,
    ensures
        raw@.len() != ((LEN + 4) / 5) * 8 ==> r == Err::<[u8; LEN], EncodingError>(
            EncodingError::InvalidHashLength,
        ),
        raw@.len() == ((LEN + 4) / 5) * 8 && b32_ok(raw@, LEN as int) ==> (r matches Ok(out)
            && out@ == b32_value(raw@, LEN as int)),
        raw@.len() == ((LEN + 4) / 5) * 8 && !b32_ok(raw@, LEN as int) ==> r == Err::<
            [u8; LEN],
            EncodingError,
        >(EncodingError::InvalidHashCharacter),
{
    proof {
        lemma_b32_bounds(LEN as int);
    }
    let n = raw.len();
    if n % 8 != 0 || n / 8 != (LEN + 4) / 5 {
        return Err(EncodingError::InvalidHashLength);
    }
    let first_pad: usize = (LEN * 8 + 4) / 5;
    let last_byte_start: usize = ((LEN - 1) * 8 + 4) / 5;

    let mut out: [u8; LEN] = [0; LEN];
    let mut i: usize = 0;
    while i < last_byte_start
        invariant
            i <= last_byte_start,
            LEN >= 1,
            LEN * 8 + 4 <= usize::MAX,
            first_pad == b32_first_pad(LEN as int),
            last_byte_start == b32_last_byte_start(LEN as int),
            last_byte_start <= first_pad <= raw@.len(),
            raw@.len() == ((LEN + 4) / 5) * 8,
            out@.len() == LEN,
            forall|k: int| 0 <= k < i ==> b32_char_ok(raw@[k]),
            forall|j: int| 0 <= j < LEN ==> out@[j] == b32_byte(raw@, j, i as int),
        decreases last_byte_start - i,
    {
        proof {
            lemma_b32_bounds(LEN as int);
        }
        let val = base32_decode_char(raw[i])?;
        let m: usize = i % 8 * 5 % 8;
        proof {
            vstd::arithmetic::div_mod::lemma_mod_breakdown(i as int * 5, 8, 5);
            assert(i as int * 5 == (i as int / 8) * 40 + (i as int % 8) * 5) by (nonlinear_arith);
            vstd::arithmetic::div_mod::lemma_mod_multiples_vanish(
                (i as int / 8) * 5,
                (i as int % 8) * 5,
                8,
            );
            assert(m == (i as int * 5) % 8);
        }
        let this = (val << 3u32) >> (m as u32);
        let next = if m <= 3 {
            0u8
        } else {
            val << ((11 - m) as u32)
        };
        assert(5 * (i as int) <= (LEN as int - 1) * 8 + 4 - 5);
        let loc = i * 5 / 8;
        proof {
            vstd::arithmetic::div_mod::lemma_fundamental_div_mod(i as int * 5, 8);
            assert(0 <= (i as int * 5) % 8 < 8);
            assert(loc + 1 < LEN);
        }
        let ghost prev = out@;
        out[loc] = out[loc] | this;
        out[loc + 1] = out[loc + 1] | next;
        proof {
            assert forall|j: int| 0 <= j < LEN implies out@[j] == b32_byte(
                raw@,
                j,
                i as int + 1,
            ) by {
                if j != loc && j != loc + 1 {
                    lemma_or_zero(prev[j]);
                }
            }
        }
        i = i + 1;
    }
    while i < first_pad
        invariant
            last_byte_start <= i <= first_pad,
            LEN >= 1,
            LEN * 8 + 4 <= usize::MAX,
            first_pad == b32_first_pad(LEN as int),
            last_byte_start == b32_last_byte_start(LEN as int),
            last_byte_start <= first_pad <= raw@.len(),
            raw@.len() == ((LEN + 4) / 5) * 8,
            out@.len() == LEN,
            forall|k: int| 0 <= k < i ==> b32_char_ok(raw@[k]),
            forall|k: int|
                last_byte_start <= k < i ==> b32_low(b32_char_val(raw@[k]), ((k * 5) % 8) as u8)
                    == 0,
            forall|j: int| 0 <= j < LEN ==> out@[j] == b32_byte(raw@, j, i as int),
        decreases first_pad - i,
    {
        proof {
            lemma_b32_bounds(LEN as int);
        }
        let val = base32_decode_char(raw[i])?;
        let m: usize = i % 8 * 5 % 8;
        proof {
            vstd::arithmetic::div_mod::lemma_mod_breakdown(i as int * 5, 8, 5);
            assert(i as int * 5 == (i as int / 8) * 40 + (i as int % 8) * 5) by (nonlinear_arith);
            vstd::arithmetic::div_mod::lemma_mod_multiples_vanish(
                (i as int / 8) * 5,
                (i as int % 8) * 5,
                8,
            );
            assert(m == (i as int * 5) % 8);
        }
        let this = (val << 3u32) >> (m as u32);
        let next = if m <= 3 {
            0u8
        } else {
            val << ((11 - m) as u32)
        };
        assert(5 * (i as int) <= LEN as int * 8 - 1);
        let loc = i * 5 / 8;
        proof {
            vstd::arithmetic::div_mod::lemma_fundamental_div_mod(i as int * 5, 8);
            assert(loc == LEN - 1);
        }
        let ghost prev = out@;
        out[loc] = out[loc] | this;
        if next != 0 {
            return Err(EncodingError::InvalidHashCharacter);
        }
        proof {
            assert forall|j: int| 0 <= j < LEN implies out@[j] == b32_byte(
                raw@,
                j,
                i as int + 1,
            ) by {
                if j != loc {
                    lemma_or_zero(prev[j]);
                }
            }
        }
        i = i + 1;
    }
    while i < n
        invariant
            first_pad <= i <= n,
            n == raw@.len(),
            raw@.len() == ((LEN + 4) / 5) * 8,
            first_pad == b32_first_pad(LEN as int),
            forall|k: int| 0 <= k < first_pad ==> b32_char_ok(raw@[k]),
            forall|k: int|
                b32_last_byte_start(LEN as int) <= k < first_pad ==> b32_low(
                    b32_char_val(raw@[k]),
                    ((k * 5) % 8) as u8,
                ) == 0,
            forall|k: int| first_pad <= k < i ==> raw@[k] == 0x3d,
            out@.len() == LEN,
            forall|j: int| 0 <= j < LEN ==> out@[j] == b32_byte(raw@, j, first_pad as int),
        decreases n - i,
    {
        if raw[i] != 0x3d {
            return Err(EncodingError::InvalidHashCharacter);
        }
        i = i + 1;
    }
    assert(out@ =~= b32_value(raw@, LEN as int));
    Ok(out)
}

/// Decodes base32 text (with its `=` padding) into `LEN` bytes, rejecting a
/// text of any other length, any character outside the alphabet, and encoded
/// data that does not fit the declared length. Both letter cases are accepted.
pub fn bytes_from_base32<const LEN: usize>(enc: &str) -> (r: Result<[u8; LEN], EncodingError>)
    requires
        1 <= LEN,
        LEN * 8 + 4 <= usize::MAX,
    ensures
        enc.spec_bytes().len() != ((LEN + 4) / 5) * 8 ==> r == Err::<[u8; LEN], EncodingError>(
            EncodingError::InvalidHashLength,
        ),
        enc.spec_bytes().len() == ((LEN + 4) / 5) * 8 && b32_ok(enc.spec_bytes(), LEN as int) ==> (
        r matches Ok(out) && out@ == b32_value(enc.spec_bytes(), LEN as int)),
        enc.spec_bytes().len() == ((LEN + 4) / 5) * 8 && !b32_ok(enc.spec_bytes(), LEN as int)
            ==> r == Err::<[u8; LEN], EncodingError>(EncodingError::InvalidHashCharacter),
{
    decode_base32(enc.as_bytes())
}

/// True when the two characters are the same up to ASCII letter case.
pub open spec fn ascii_case_eq(a: u8, b: u8) -> bool {
    a == b || (0x41 <= a <= 0x5a && b == a + 0x20) || (0x61 <= a <= 0x7a && b == a - 0x20)
}

/// Law: hex decoding is case-insensitive. Two texts equal up to letter case
/// are both accepted or both rejected, and decode to the same bytes.
pub proof fn lemma_hex_case_insensitive(s: Seq<u8>, t: Seq<u8>, n: int)
    requires
        s.len() == t.len(),
        s.len() == 2 * n,
        forall|i: int| 0 <= i < s.len() ==> ascii_case_eq(#[trigger] s[i], t[i]),
    ensures
        hex_chars_ok(s, n) <==> hex_chars_ok(t, n),
        hex_chars_ok(s, n) ==> hex_value(s, n) == hex_value(t, n),
{
    assert forall|i: int| 0 <= i < s.len() implies (hex_digit_ok(s[i]) <==> hex_digit_ok(
        #[trigger] t[i],
    )) && (hex_digit_ok(s[i]) ==> hex_digit_val(s[i]) == hex_digit_val(t[i])) by {
        assert(ascii_case_eq(s[i], t[i]));
    }
    if hex_chars_ok(s, n) {
        assert(hex_value(s, n) =~= hex_value(t, n));
    }
}

/// Law: base32 decoding is case-insensitive between `A-Z` and `a-z`. Two
/// texts equal up to letter case are both accepted or both rejected, and
/// decode to the same bytes.
pub proof fn lemma_base32_case_insensitive(s: Seq<u8>, t: Seq<u8>, n: int)
    requires
        n >= 1,
        s.len() == t.len(),
        s.len() == ((n + 4) / 5) * 8,
        forall|i: int| 0 <= i < s.len() ==> ascii_case_eq(#[trigger] s[i], t[i]),
    ensures
        b32_ok(s, n) <==> b32_ok(t, n),
        b32_ok(s, n) ==> b32_value(s, n) == b32_value(t, n),
{
    lemma_b32_bounds(n);
    assert forall|i: int| 0 <= i < s.len() implies (b32_char_ok(s[i]) <==> b32_char_ok(
        #[trigger] t[i],
    )) && b32_char_val(s[i]) == b32_char_val(t[i]) && (s[i] == 0x3d <==> t[i] == 0x3d) by {
        assert(ascii_case_eq(s[i], t[i]));
    }
    if b32_ok(s, n) {
        assert forall|j: int| 0 <= j < n implies b32_byte(s, j, b32_first_pad(n)) == b32_byte(
            t,
            j,
            b32_first_pad(n),
        ) by {
            lemma_b32_byte_eq(s, t, j, b32_first_pad(n));
        }
        assert(b32_value(s, n) =~= b32_value(t, n));
    }
}

proof fn lemma_b32_byte_eq(s: Seq<u8>, t: Seq<u8>, j: int, upto: int)
    requires
        s.len() == t.len(),
        upto <= s.len(),
        forall|i: int| 0 <= i < s.len() ==> b32_char_val(#[trigger] s[i]) == b32_char_val(t[i]),
    ensures
        b32_byte(s, j, upto) == b32_byte(t, j, upto),
    decreases upto,
{
    if upto > 0 {
        lemma_b32_byte_eq(s, t, j, upto - 1);
    }
}

/// Hex digit of the value `v`, in lowercase.
pub open spec fn hex_digit_of(v: u8) -> u8
    recommends
        v < 16,
{
    if v < 10 {
        (0x30 + v) as u8
    } else {
        (0x61 + v - 10) as u8
    }
}

/// The hex text of `x`, two lowercase digits per byte.
pub open spec fn hex_of(x: Seq<u8>) -> Seq<u8> {
    Seq::new(
        2 * x.len(),
        |i: int|
            if i % 2 == 0 {
                hex_digit_of(x[i / 2] / 16)
            } else {
                hex_digit_of(x[i / 2] % 16)
            },
    )
}

/// Law: decoding inverts hex encoding. The hex text of any byte string has
/// the right length, holds only hex digits, and decodes to those bytes.
pub proof fn lemma_hex_round_trip(x: Seq<u8>)
    ensures
        hex_of(x).len() == 2 * x.len(),
        hex_chars_ok(hex_of(x), x.len() as int),
        hex_value(hex_of(x), x.len() as int) == x,
{
    let s = hex_of(x);
    let n = x.len() as int;
    assert forall|i: int| 0 <= i < 2 * n implies hex_digit_ok(#[trigger] s[i]) by {
        assert(0 <= x[i / 2] / 16 < 16);
        assert(0 <= x[i / 2] % 16 < 16);
    }
    assert forall|j: int| 0 <= j < n implies hex_pair_val(s[2 * j], s[2 * j + 1]) == x[j] by {
        assert((2 * j) % 2 == 0 && (2 * j) / 2 == j);
        assert((2 * j + 1) % 2 == 1 && (2 * j + 1) / 2 == j);
        assert(0 <= x[j] / 16 < 16);
        assert(0 <= x[j] % 16 < 16);
        assert(hex_digit_val(hex_digit_of(x[j] / 16)) == x[j] / 16);
        assert(hex_digit_val(hex_digit_of(x[j] % 16)) == x[j] % 16);
        vstd::arithmetic::div_mod::lemma_fundamental_div_mod(x[j] as int, 16);
    }
    assert(hex_value(s, n) =~= x);
}


/// Base32 character of the five-bit value `v`, in uppercase.
pub open spec fn b32_digit_of(v: u8) -> u8
    recommends
        v < 32,
{
    if v < 26 {
        (0x41 + v) as u8
    } else {
        (0x32 + v - 26) as u8
    }
}

/// The five bits of the byte stream `x` starting at bit `5*i`, most
/// significant first; bits past the end of the stream are zero.
pub open spec fn b32_bits(x: Seq<u8>, i: int) -> u8
    recommends
        0 <= i,
        i * 5 < 8 * x.len(),
{
    let j = i * 5 / 8;
    let mm = (i * 5) % 8;
    let hi = x[j] as u16;
    let lo = if j + 1 < x.len() {
        x[j + 1] as u16
    } else {
        0u16
    };
    let w = (hi << 8u16) | lo;
    ((w >> ((11 - mm) as u16)) & 31) as u8
}

/// The padded base32 text of `x`.
pub open spec fn base32_of(x: Seq<u8>) -> Seq<u8> {
    Seq::new(
        (((x.len() + 4) / 5) * 8) as nat,
        |i: int|
            if i < b32_first_pad(x.len() as int) {
                b32_digit_of(b32_bits(x, i))
            } else {
                0x3d
            },
    )
}

proof fn lemma_b32_byte_skip(s: Seq<u8>, j: int, a: int, b: int)
    requires
        0 <= a <= b,
        forall|i: int| a <= i < b ==> b32_contrib(s, i, j) == 0,
    ensures
        b32_byte(s, j, b) == b32_byte(s, j, a),
    decreases b - a,
{
    if b > a {
        lemma_b32_byte_skip(s, j, a, b - 1);
        lemma_or_zero(b32_byte(s, j, b - 1));
    }
}

/// Law: decoding inverts base32 encoding. The padded base32 text of any
/// 20-byte string has the right length, satisfies every decoder check, and
/// decodes to those bytes.
#[verifier::rlimit(100)]
pub proof fn lemma_base32_round_trip(x: Seq<u8>)
    requires
        x.len() == 20,
    ensures
        base32_of(x).len() == 32,
        b32_ok(base32_of(x), 20),
        b32_value(base32_of(x), 20) == x,
{
    let s = base32_of(x);
    assert(b32_first_pad(20) == 32);
    assert(b32_last_byte_start(20) == 31);
    assert forall|i: int| 0 <= i < 32 implies b32_bits(x, i) < 32 && #[trigger] s[i]
        == b32_digit_of(b32_bits(x, i)) && b32_char_ok(s[i]) && b32_char_val(s[i]) == b32_bits(
        x,
        i,
    ) by {
        vstd::arithmetic::div_mod::lemma_fundamental_div_mod(i * 5, 8);
        let j = i * 5 / 8;
        let mm = (i * 5) % 8;
        let hi = x[j] as u16;
        let lo = if j + 1 < x.len() {
            x[j + 1] as u16
        } else {
            0u16
        };
        let w = (hi << 8u16) | lo;
        let sh = (11 - mm) as u16;
        assert(0 <= mm < 8);
        assert(((w >> sh) & 31) < 32) by (bit_vector)
            requires
                4 <= sh <= 11,
        ;
    }
    // the single character overhanging the last byte stands at bit offset
    // three, so its low contribution is zero by definition
    assert((31 * 5) % 8 == 3);
    assert(b32_ok(s, 20));
    // byte 0 is rebuilt from characters 0 to 1
    assert(b32_byte(s, 0, 32) == x[0]) by {
        let x0 = x[0];
        let x1 = x[1];
        let v0 = b32_char_val(s[0]);
        assert(v0 == b32_bits(x, 0));
        assert(v0 == (((((x0 as u16) << 8u16) | (x1 as u16)) >> 11u16) & 31) as u8);
        let v1 = b32_char_val(s[1]);
        assert(v1 == b32_bits(x, 1));
        assert(v1 == (((((x0 as u16) << 8u16) | (x1 as u16)) >> 6u16) & 31) as u8);
        assert forall|i: int| 2 <= i < 32 implies b32_contrib(s, i, 0) == 0 by {
            vstd::arithmetic::div_mod::lemma_fundamental_div_mod(i * 5, 8);
        }
        lemma_b32_byte_skip(s, 0, 2, 32);
        assert(b32_byte(s, 0, 0) == 0);
        assert(b32_byte(s, 0, 1) == b32_byte(s, 0, 0) | b32_contrib(s, 0, 0));
        assert(b32_contrib(s, 0, 0) == ((v0 << 3u8) >> 0u8));
        assert(b32_byte(s, 0, 2) == b32_byte(s, 0, 1) | b32_contrib(s, 1, 0));
        assert(b32_contrib(s, 1, 0) == ((v1 << 3u8) >> 5u8));
        assert(((0u8 | ((v0 << 3u8) >> 0u8)) | ((v1 << 3u8) >> 5u8)) == x0) by (bit_vector)
            requires
                v0 == (((((x0 as u16) << 8u16) | (x1 as u16)) >> 11u16) & 31) as u8,
                v1 == (((((x0 as u16) << 8u16) | (x1 as u16)) >> 6u16) & 31) as u8,
        ;
    }
    // byte 1 is rebuilt from characters 0 to 3
    assert(b32_byte(s, 1, 32) == x[1]) by {
        let x0 = x[0];
        let x1 = x[1];
        let x2 = x[2];
        let v0 = b32_char_val(s[0]);
        assert(v0 == b32_bits(x, 0));
        assert(v0 == (((((x0 as u16) << 8u16) | (x1 as u16)) >> 11u16) & 31) as u8);
        let v1 = b32_char_val(s[1]);
        assert(v1 == b32_bits(x, 1));
        assert(v1 == (((((x0 as u16) << 8u16) | (x1 as u16)) >> 6u16) & 31) as u8);
        let v2 = b32_char_val(s[2]);
        assert(v2 == b32_bits(x, 2));
        assert(v2 == (((((x1 as u16) << 8u16) | (x2 as u16)) >> 9u16) & 31) as u8);
        let v3 = b32_char_val(s[3]);
        assert(v3 == b32_bits(x, 3));
        assert(v3 == (((((x1 as u16) << 8u16) | (x2 as u16)) >> 4u16) & 31) as u8);
        assert forall|i: int| 4 <= i < 32 implies b32_contrib(s, i, 1) == 0 by {
            vstd::arithmetic::div_mod::lemma_fundamental_div_mod(i * 5, 8);
        }
        lemma_b32_byte_skip(s, 1, 4, 32);
        assert(b32_byte(s, 1, 0) == 0);
        assert(b32_byte(s, 1, 1) == b32_byte(s, 1, 0) | b32_contrib(s, 0, 1));
        assert(b32_contrib(s, 0, 1) == (0u8));
        assert(b32_byte(s, 1, 2) == b32_byte(s, 1, 1) | b32_contrib(s, 1, 1));
        assert(b32_contrib(s, 1, 1) == (v1 << 6u8));
        assert(b32_byte(s, 1, 3) == b32_byte(s, 1, 2) | b32_contrib(s, 2, 1));
        assert(b32_contrib(s, 2, 1) == ((v2 << 3u8) >> 2u8));
        assert(b32_byte(s, 1, 4) == b32_byte(s, 1, 3) | b32_contrib(s, 3, 1));
        assert(b32_contrib(s, 3, 1) == ((v3 << 3u8) >> 7u8));
        assert(((((0u8 | (0u8)) | (v1 << 6u8)) | ((v2 << 3u8) >> 2u8)) | ((v3 << 3u8) >> 7u8)) == x1) by (bit_vector)
            requires
                v0 == (((((x0 as u16) << 8u16) | (x1 as u16)) >> 11u16) & 31) as u8,
                v1 == (((((x0 as u16) << 8u16) | (x1 as u16)) >> 6u16) & 31) as u8,
                v2 == (((((x1 as u16) << 8u16) | (x2 as u16)) >> 9u16) & 31) as u8,
                v3 == (((((x1 as u16) << 8u16) | (x2 as u16)) >> 4u16) & 31) as u8,
        ;
    }
    // byte 2 is rebuilt from characters 2 to 4
    assert(b32_byte(s, 2, 32) == x[2]) by {
        let x1 = x[1];
        let x2 = x[2];
        let x3 = x[3];
        let v2 = b32_char_val(s[2]);
        assert(v2 == b32_bits(x, 2));
        assert(v2 == (((((x1 as u16) << 8u16) | (x2 as u16)) >> 9u16) & 31) as u8);
        let v3 = b32_char_val(s[3]);
        assert(v3 == b32_bits(x, 3));
        assert(v3 == (((((x1 as u16) << 8u16) | (x2 as u16)) >> 4u16) & 31) as u8);
        let v4 = b32_char_val(s[4]);
        assert(v4 == b32_bits(x, 4));
        assert(v4 == (((((x2 as u16) << 8u16) | (x3 as u16)) >> 7u16) & 31) as u8);
        assert forall|i: int| 5 <= i < 32 implies b32_contrib(s, i, 2) == 0 by {
            vstd::arithmetic::div_mod::lemma_fundamental_div_mod(i * 5, 8);
        }
        lemma_b32_byte_skip(s, 2, 5, 32);
        assert forall|i: int| 0 <= i < 2 implies b32_contrib(s, i, 2) == 0 by {
            vstd::arithmetic::div_mod::lemma_fundamental_div_mod(i * 5, 8);
        }
        lemma_b32_byte_skip(s, 2, 0, 2);
        assert(b32_byte(s, 2, 0) == 0);
        assert(b32_byte(s, 2, 3) == b32_byte(s, 2, 2) | b32_contrib(s, 2, 2));
        assert(b32_contrib(s, 2, 2) == (0u8));
        assert(b32_byte(s, 2, 4) == b32_byte(s, 2, 3) | b32_contrib(s, 3, 2));
        assert(b32_contrib(s, 3, 2) == (v3 << 4u8));
        assert(b32_byte(s, 2, 5) == b32_byte(s, 2, 4) | b32_contrib(s, 4, 2));
        assert(b32_contrib(s, 4, 2) == ((v4 << 3u8) >> 4u8));
        assert((((0u8 | (0u8)) | (v3 << 4u8)) | ((v4 << 3u8) >> 4u8)) == x2) by (bit_vector)
            requires
                v2 == (((((x1 as u16) << 8u16) | (x2 as u16)) >> 9u16) & 31) as u8,
                v3 == (((((x1 as u16) << 8u16) | (x2 as u16)) >> 4u16) & 31) as u8,
                v4 == (((((x2 as u16) << 8u16) | (x3 as u16)) >> 7u16) & 31) as u8,
        ;
    }
    // byte 3 is rebuilt from characters 4 to 6
    assert(b32_byte(s, 3, 32) == x[3]) by {
        let x2 = x[2];
        let x3 = x[3];
        let x4 = x[4];
        let v4 = b32_char_val(s[4]);
        assert(v4 == b32_bits(x, 4));
        assert(v4 == (((((x2 as u16) << 8u16) | (x3 as u16)) >> 7u16) & 31) as u8);
        let v5 = b32_char_val(s[5]);
        assert(v5 == b32_bits(x, 5));
        assert(v5 == (((((x3 as u16) << 8u16) | (x4 as u16)) >> 10u16) & 31) as u8);
        let v6 = b32_char_val(s[6]);
        assert(v6 == b32_bits(x, 6));
        assert(v6 == (((((x3 as u16) << 8u16) | (x4 as u16)) >> 5u16) & 31) as u8);
        assert forall|i: int| 7 <= i < 32 implies b32_contrib(s, i, 3) == 0 by {
            vstd::arithmetic::div_mod::lemma_fundamental_div_mod(i * 5, 8);
        }
        lemma_b32_byte_skip(s, 3, 7, 32);
        assert forall|i: int| 0 <= i < 4 implies b32_contrib(s, i, 3) == 0 by {
            vstd::arithmetic::div_mod::lemma_fundamental_div_mod(i * 5, 8);
        }
        lemma_b32_byte_skip(s, 3, 0, 4);
        assert(b32_byte(s, 3, 0) == 0);
        assert(b32_byte(s, 3, 5) == b32_byte(s, 3, 4) | b32_contrib(s, 4, 3));
        assert(b32_contrib(s, 4, 3) == (v4 << 7u8));
        assert(b32_byte(s, 3, 6) == b32_byte(s, 3, 5) | b32_contrib(s, 5, 3));
        assert(b32_contrib(s, 5, 3) == ((v5 << 3u8) >> 1u8));
        assert(b32_byte(s, 3, 7) == b32_byte(s, 3, 6) | b32_contrib(s, 6, 3));
        assert(b32_contrib(s, 6, 3) == ((v6 << 3u8) >> 6u8));
        assert((((0u8 | (v4 << 7u8)) | ((v5 << 3u8) >> 1u8)) | ((v6 << 3u8) >> 6u8)) == x3) by (bit_vector)
            requires
                v4 == (((((x2 as u16) << 8u16) | (x3 as u16)) >> 7u16) & 31) as u8,
                v5 == (((((x3 as u16) << 8u16) | (x4 as u16)) >> 10u16) & 31) as u8,
                v6 == (((((x3 as u16) << 8u16) | (x4 as u16)) >> 5u16) & 31) as u8,
        ;
    }
    // byte 4 is rebuilt from characters 5 to 7
    assert(b32_byte(s, 4, 32) == x[4]) by {
        let x3 = x[3];
        let x4 = x[4];
        let x5 = x[5];
        let v5 = b32_char_val(s[5]);
        assert(v5 == b32_bits(x, 5));
        assert(v5 == (((((x3 as u16) << 8u16) | (x4 as u16)) >> 10u16) & 31) as u8);
        let v6 = b32_char_val(s[6]);
        assert(v6 == b32_bits(x, 6));
        assert(v6 == (((((x3 as u16) << 8u16) | (x4 as u16)) >> 5u16) & 31) as u8);
        let v7 = b32_char_val(s[7]);
        assert(v7 == b32_bits(x, 7));
        assert(v7 == (((((x4 as u16) << 8u16) | (x5 as u16)) >> 8u16) & 31) as u8);
        assert forall|i: int| 8 <= i < 32 implies b32_contrib(s, i, 4) == 0 by {
            vstd::arithmetic::div_mod::lemma_fundamental_div_mod(i * 5, 8);
        }
        lemma_b32_byte_skip(s, 4, 8, 32);
        assert forall|i: int| 0 <= i < 5 implies b32_contrib(s, i, 4) == 0 by {
            vstd::arithmetic::div_mod::lemma_fundamental_div_mod(i * 5, 8);
        }
        lemma_b32_byte_skip(s, 4, 0, 5);
        assert(b32_byte(s, 4, 0) == 0);
        assert(b32_byte(s, 4, 6) == b32_byte(s, 4, 5) | b32_contrib(s, 5, 4));
        assert(b32_contrib(s, 5, 4) == (0u8));
        assert(b32_byte(s, 4, 7) == b32_byte(s, 4, 6) | b32_contrib(s, 6, 4));
        assert(b32_contrib(s, 6, 4) == (v6 << 5u8));
        assert(b32_byte(s, 4, 8) == b32_byte(s, 4, 7) | b32_contrib(s, 7, 4));
        assert(b32_contrib(s, 7, 4) == ((v7 << 3u8) >> 3u8));
        assert((((0u8 | (0u8)) | (v6 << 5u8)) | ((v7 << 3u8) >> 3u8)) == x4) by (bit_vector)
            requires
                v5 == (((((x3 as u16) << 8u16) | (x4 as u16)) >> 10u16) & 31) as u8,
                v6 == (((((x3 as u16) << 8u16) | (x4 as u16)) >> 5u16) & 31) as u8,
                v7 == (((((x4 as u16) << 8u16) | (x5 as u16)) >> 8u16) & 31) as u8,
        ;
    }
    // byte 5 is rebuilt from characters 7 to 9
    assert(b32_byte(s, 5, 32) == x[5]) by {
        let x4 = x[4];
        let x5 = x[5];
        let x6 = x[6];
        let v7 = b32_char_val(s[7]);
        assert(v7 == b32_bits(x, 7));
        assert(v7 == (((((x4 as u16) << 8u16) | (x5 as u16)) >> 8u16) & 31) as u8);
        let v8 = b32_char_val(s[8]);
        assert(v8 == b32_bits(x, 8));
        assert(v8 == (((((x5 as u16) << 8u16) | (x6 as u16)) >> 11u16) & 31) as u8);
        let v9 = b32_char_val(s[9]);
        assert(v9 == b32_bits(x, 9));
        assert(v9 == (((((x5 as u16) << 8u16) | (x6 as u16)) >> 6u16) & 31) as u8);
        assert forall|i: int| 10 <= i < 32 implies b32_contrib(s, i, 5) == 0 by {
            vstd::arithmetic::div_mod::lemma_fundamental_div_mod(i * 5, 8);
        }
        lemma_b32_byte_skip(s, 5, 10, 32);
        assert forall|i: int| 0 <= i < 7 implies b32_contrib(s, i, 5) == 0 by {
            vstd::arithmetic::div_mod::lemma_fundamental_div_mod(i * 5, 8);
        }
        lemma_b32_byte_skip(s, 5, 0, 7);
        assert(b32_byte(s, 5, 0) == 0);
        assert(b32_byte(s, 5, 8) == b32_byte(s, 5, 7) | b32_contrib(s, 7, 5));
        assert(b32_contrib(s, 7, 5) == (0u8));
        assert(b32_byte(s, 5, 9) == b32_byte(s, 5, 8) | b32_contrib(s, 8, 5));
        assert(b32_contrib(s, 8, 5) == ((v8 << 3u8) >> 0u8));
        assert(b32_byte(s, 5, 10) == b32_byte(s, 5, 9) | b32_contrib(s, 9, 5));
        assert(b32_contrib(s, 9, 5) == ((v9 << 3u8) >> 5u8));
        assert((((0u8 | (0u8)) | ((v8 << 3u8) >> 0u8)) | ((v9 << 3u8) >> 5u8)) == x5) by (bit_vector)
            requires
                v7 == (((((x4 as u16) << 8u16) | (x5 as u16)) >> 8u16) & 31) as u8,
                v8 == (((((x5 as u16) << 8u16) | (x6 as u16)) >> 11u16) & 31) as u8,
                v9 == (((((x5 as u16) << 8u16) | (x6 as u16)) >> 6u16) & 31) as u8,
        ;
    }
    // byte 6 is rebuilt from characters 8 to 11
    assert(b32_byte(s, 6, 32) == x[6]) by {
        let x5 = x[5];
        let x6 = x[6];
        let x7 = x[7];
        let v8 = b32_char_val(s[8]);
        assert(v8 == b32_bits(x, 8));
        assert(v8 == (((((x5 as u16) << 8u16) | (x6 as u16)) >> 11u16) & 31) as u8);
        let v9 = b32_char_val(s[9]);
        assert(v9 == b32_bits(x, 9));
        assert(v9 == (((((x5 as u16) << 8u16) | (x6 as u16)) >> 6u16) & 31) as u8);
        let v10 = b32_char_val(s[10]);
        assert(v10 == b32_bits(x, 10));
        assert(v10 == (((((x6 as u16) << 8u16) | (x7 as u16)) >> 9u16) & 31) as u8);
        let v11 = b32_char_val(s[11]);
        assert(v11 == b32_bits(x, 11));
        assert(v11 == (((((x6 as u16) << 8u16) | (x7 as u16)) >> 4u16) & 31) as u8);
        assert forall|i: int| 12 <= i < 32 implies b32_contrib(s, i, 6) == 0 by {
            vstd::arithmetic::div_mod::lemma_fundamental_div_mod(i * 5, 8);
        }
        lemma_b32_byte_skip(s, 6, 12, 32);
        assert forall|i: int| 0 <= i < 8 implies b32_contrib(s, i, 6) == 0 by {
            vstd::arithmetic::div_mod::lemma_fundamental_div_mod(i * 5, 8);
        }
        lemma_b32_byte_skip(s, 6, 0, 8);
        assert(b32_byte(s, 6, 0) == 0);
        assert(b32_byte(s, 6, 9) == b32_byte(s, 6, 8) | b32_contrib(s, 8, 6));
        assert(b32_contrib(s, 8, 6) == (0u8));
        assert(b32_byte(s, 6, 10) == b32_byte(s, 6, 9) | b32_contrib(s, 9, 6));
        assert(b32_contrib(s, 9, 6) == (v9 << 6u8));
        assert(b32_byte(s, 6, 11) == b32_byte(s, 6, 10) | b32_contrib(s, 10, 6));
        assert(b32_contrib(s, 10, 6) == ((v10 << 3u8) >> 2u8));
        assert(b32_byte(s, 6, 12) == b32_byte(s, 6, 11) | b32_contrib(s, 11, 6));
        assert(b32_contrib(s, 11, 6) == ((v11 << 3u8) >> 7u8));
        assert(((((0u8 | (0u8)) | (v9 << 6u8)) | ((v10 << 3u8) >> 2u8)) | ((v11 << 3u8) >> 7u8)) == x6) by (bit_vector)
            requires
                v8 == (((((x5 as u16) << 8u16) | (x6 as u16)) >> 11u16) & 31) as u8,
                v9 == (((((x5 as u16) << 8u16) | (x6 as u16)) >> 6u16) & 31) as u8,
                v10 == (((((x6 as u16) << 8u16) | (x7 as u16)) >> 9u16) & 31) as u8,
                v11 == (((((x6 as u16) << 8u16) | (x7 as u16)) >> 4u16) & 31) as u8,
        ;
    }
    // byte 7 is rebuilt from characters 10 to 12
    assert(b32_byte(s, 7, 32) == x[7]) by {
        let x6 = x[6];
        let x7 = x[7];
        let x8 = x[8];
        let v10 = b32_char_val(s[10]);
        assert(v10 == b32_bits(x, 10));
        assert(v10 == (((((x6 as u16) << 8u16) | (x7 as u16)) >> 9u16) & 31) as u8);
        let v11 = b32_char_val(s[11]);
        assert(v11 == b32_bits(x, 11));
        assert(v11 == (((((x6 as u16) << 8u16) | (x7 as u16)) >> 4u16) & 31) as u8);
        let v12 = b32_char_val(s[12]);
        assert(v12 == b32_bits(x, 12));
        assert(v12 == (((((x7 as u16) << 8u16) | (x8 as u16)) >> 7u16) & 31) as u8);
        assert forall|i: int| 13 <= i < 32 implies b32_contrib(s, i, 7) == 0 by {
            vstd::arithmetic::div_mod::lemma_fundamental_div_mod(i * 5, 8);
        }
        lemma_b32_byte_skip(s, 7, 13, 32);
        assert forall|i: int| 0 <= i < 10 implies b32_contrib(s, i, 7) == 0 by {
            vstd::arithmetic::div_mod::lemma_fundamental_div_mod(i * 5, 8);
        }
        lemma_b32_byte_skip(s, 7, 0, 10);
        assert(b32_byte(s, 7, 0) == 0);
        assert(b32_byte(s, 7, 11) == b32_byte(s, 7, 10) | b32_contrib(s, 10, 7));
        assert(b32_contrib(s, 10, 7) == (0u8));
        assert(b32_byte(s, 7, 12) == b32_byte(s, 7, 11) | b32_contrib(s, 11, 7));
        assert(b32_contrib(s, 11, 7) == (v11 << 4u8));
        assert(b32_byte(s, 7, 13) == b32_byte(s, 7, 12) | b32_contrib(s, 12, 7));
        assert(b32_contrib(s, 12, 7) == ((v12 << 3u8) >> 4u8));
        assert((((0u8 | (0u8)) | (v11 << 4u8)) | ((v12 << 3u8) >> 4u8)) == x7) by (bit_vector)
            requires
                v10 == (((((x6 as u16) << 8u16) | (x7 as u16)) >> 9u16) & 31) as u8,
                v11 == (((((x6 as u16) << 8u16) | (x7 as u16)) >> 4u16) & 31) as u8,
                v12 == (((((x7 as u16) << 8u16) | (x8 as u16)) >> 7u16) & 31) as u8,
        ;
    }
    // byte 8 is rebuilt from characters 12 to 14
    assert(b32_byte(s, 8, 32) == x[8]) by {
        let x7 = x[7];
        let x8 = x[8];
        let x9 = x[9];
        let v12 = b32_char_val(s[12]);
        assert(v12 == b32_bits(x, 12));
        assert(v12 == (((((x7 as u16) << 8u16) | (x8 as u16)) >> 7u16) & 31) as u8);
        let v13 = b32_char_val(s[13]);
        assert(v13 == b32_bits(x, 13));
        assert(v13 == (((((x8 as u16) << 8u16) | (x9 as u16)) >> 10u16) & 31) as u8);
        let v14 = b32_char_val(s[14]);
        assert(v14 == b32_bits(x, 14));
        assert(v14 == (((((x8 as u16) << 8u16) | (x9 as u16)) >> 5u16) & 31) as u8);
        assert forall|i: int| 15 <= i < 32 implies b32_contrib(s, i, 8) == 0 by {
            vstd::arithmetic::div_mod::lemma_fundamental_div_mod(i * 5, 8);
        }
        lemma_b32_byte_skip(s, 8, 15, 32);
        assert forall|i: int| 0 <= i < 12 implies b32_contrib(s, i, 8) == 0 by {
            vstd::arithmetic::div_mod::lemma_fundamental_div_mod(i * 5, 8);
        }
        lemma_b32_byte_skip(s, 8, 0, 12);
        assert(b32_byte(s, 8, 0) == 0);
        assert(b32_byte(s, 8, 13) == b32_byte(s, 8, 12) | b32_contrib(s, 12, 8));
        assert(b32_contrib(s, 12, 8) == (v12 << 7u8));
        assert(b32_byte(s, 8, 14) == b32_byte(s, 8, 13) | b32_contrib(s, 13, 8));
        assert(b32_contrib(s, 13, 8) == ((v13 << 3u8) >> 1u8));
        assert(b32_byte(s, 8, 15) == b32_byte(s, 8, 14) | b32_contrib(s, 14, 8));
        assert(b32_contrib(s, 14, 8) == ((v14 << 3u8) >> 6u8));
        assert((((0u8 | (v12 << 7u8)) | ((v13 << 3u8) >> 1u8)) | ((v14 << 3u8) >> 6u8)) == x8) by (bit_vector)
            requires
                v12 == (((((x7 as u16) << 8u16) | (x8 as u16)) >> 7u16) & 31) as u8,
                v13 == (((((x8 as u16) << 8u16) | (x9 as u16)) >> 10u16) & 31) as u8,
                v14 == (((((x8 as u16) << 8u16) | (x9 as u16)) >> 5u16) & 31) as u8,
        ;
    }
    // byte 9 is rebuilt from characters 13 to 15
    assert(b32_byte(s, 9, 32) == x[9]) by {
        let x8 = x[8];
        let x9 = x[9];
        let x10 = x[10];
        let v13 = b32_char_val(s[13]);
        assert(v13 == b32_bits(x, 13));
        assert(v13 == (((((x8 as u16) << 8u16) | (x9 as u16)) >> 10u16) & 31) as u8);
        let v14 = b32_char_val(s[14]);
        assert(v14 == b32_bits(x, 14));
        assert(v14 == (((((x8 as u16) << 8u16) | (x9 as u16)) >> 5u16) & 31) as u8);
        let v15 = b32_char_val(s[15]);
        assert(v15 == b32_bits(x, 15));
        assert(v15 == (((((x9 as u16) << 8u16) | (x10 as u16)) >> 8u16) & 31) as u8);
        assert forall|i: int| 16 <= i < 32 implies b32_contrib(s, i, 9) == 0 by {
            vstd::arithmetic::div_mod::lemma_fundamental_div_mod(i * 5, 8);
        }
        lemma_b32_byte_skip(s, 9, 16, 32);
        assert forall|i: int| 0 <= i < 13 implies b32_contrib(s, i, 9) == 0 by {
            vstd::arithmetic::div_mod::lemma_fundamental_div_mod(i * 5, 8);
        }
        lemma_b32_byte_skip(s, 9, 0, 13);
        assert(b32_byte(s, 9, 0) == 0);
        assert(b32_byte(s, 9, 14) == b32_byte(s, 9, 13) | b32_contrib(s, 13, 9));
        assert(b32_contrib(s, 13, 9) == (0u8));
        assert(b32_byte(s, 9, 15) == b32_byte(s, 9, 14) | b32_contrib(s, 14, 9));
        assert(b32_contrib(s, 14, 9) == (v14 << 5u8));
        assert(b32_byte(s, 9, 16) == b32_byte(s, 9, 15) | b32_contrib(s, 15, 9));
        assert(b32_contrib(s, 15, 9) == ((v15 << 3u8) >> 3u8));
        assert((((0u8 | (0u8)) | (v14 << 5u8)) | ((v15 << 3u8) >> 3u8)) == x9) by (bit_vector)
            requires
                v13 == (((((x8 as u16) << 8u16) | (x9 as u16)) >> 10u16) & 31) as u8,
                v14 == (((((x8 as u16) << 8u16) | (x9 as u16)) >> 5u16) & 31) as u8,
                v15 == (((((x9 as u16) << 8u16) | (x10 as u16)) >> 8u16) & 31) as u8,
        ;
    }
    // byte 10 is rebuilt from characters 15 to 17
    assert(b32_byte(s, 10, 32) == x[10]) by {
        let x9 = x[9];
        let x10 = x[10];
        let x11 = x[11];
        let v15 = b32_char_val(s[15]);
        assert(v15 == b32_bits(x, 15));
        assert(v15 == (((((x9 as u16) << 8u16) | (x10 as u16)) >> 8u16) & 31) as u8);
        let v16 = b32_char_val(s[16]);
        assert(v16 == b32_bits(x, 16));
        assert(v16 == (((((x10 as u16) << 8u16) | (x11 as u16)) >> 11u16) & 31) as u8);
        let v17 = b32_char_val(s[17]);
        assert(v17 == b32_bits(x, 17));
        assert(v17 == (((((x10 as u16) << 8u16) | (x11 as u16)) >> 6u16) & 31) as u8);
        assert forall|i: int| 18 <= i < 32 implies b32_contrib(s, i, 10) == 0 by {
            vstd::arithmetic::div_mod::lemma_fundamental_div_mod(i * 5, 8);
        }
        lemma_b32_byte_skip(s, 10, 18, 32);
        assert forall|i: int| 0 <= i < 15 implies b32_contrib(s, i, 10) == 0 by {
            vstd::arithmetic::div_mod::lemma_fundamental_div_mod(i * 5, 8);
        }
        lemma_b32_byte_skip(s, 10, 0, 15);
        assert(b32_byte(s, 10, 0) == 0);
        assert(b32_byte(s, 10, 16) == b32_byte(s, 10, 15) | b32_contrib(s, 15, 10));
        assert(b32_contrib(s, 15, 10) == (0u8));
        assert(b32_byte(s, 10, 17) == b32_byte(s, 10, 16) | b32_contrib(s, 16, 10));
        assert(b32_contrib(s, 16, 10) == ((v16 << 3u8) >> 0u8));
        assert(b32_byte(s, 10, 18) == b32_byte(s, 10, 17) | b32_contrib(s, 17, 10));
        assert(b32_contrib(s, 17, 10) == ((v17 << 3u8) >> 5u8));
        assert((((0u8 | (0u8)) | ((v16 << 3u8) >> 0u8)) | ((v17 << 3u8) >> 5u8)) == x10) by (bit_vector)
            requires
                v15 == (((((x9 as u16) << 8u16) | (x10 as u16)) >> 8u16) & 31) as u8,
                v16 == (((((x10 as u16) << 8u16) | (x11 as u16)) >> 11u16) & 31) as u8,
                v17 == (((((x10 as u16) << 8u16) | (x11 as u16)) >> 6u16) & 31) as u8,
        ;
    }
    // byte 11 is rebuilt from characters 16 to 19
    assert(b32_byte(s, 11, 32) == x[11]) by {
        let x10 = x[10];
        let x11 = x[11];
        let x12 = x[12];
        let v16 = b32_char_val(s[16]);
        assert(v16 == b32_bits(x, 16));
        assert(v16 == (((((x10 as u16) << 8u16) | (x11 as u16)) >> 11u16) & 31) as u8);
        let v17 = b32_char_val(s[17]);
        assert(v17 == b32_bits(x, 17));
        assert(v17 == (((((x10 as u16) << 8u16) | (x11 as u16)) >> 6u16) & 31) as u8);
        let v18 = b32_char_val(s[18]);
        assert(v18 == b32_bits(x, 18));
        assert(v18 == (((((x11 as u16) << 8u16) | (x12 as u16)) >> 9u16) & 31) as u8);
        let v19 = b32_char_val(s[19]);
        assert(v19 == b32_bits(x, 19));
        assert(v19 == (((((x11 as u16) << 8u16) | (x12 as u16)) >> 4u16) & 31) as u8);
        assert forall|i: int| 20 <= i < 32 implies b32_contrib(s, i, 11) == 0 by {
            vstd::arithmetic::div_mod::lemma_fundamental_div_mod(i * 5, 8);
        }
        lemma_b32_byte_skip(s, 11, 20, 32);
        assert forall|i: int| 0 <= i < 16 implies b32_contrib(s, i, 11) == 0 by {
            vstd::arithmetic::div_mod::lemma_fundamental_div_mod(i * 5, 8);
        }
        lemma_b32_byte_skip(s, 11, 0, 16);
        assert(b32_byte(s, 11, 0) == 0);
        assert(b32_byte(s, 11, 17) == b32_byte(s, 11, 16) | b32_contrib(s, 16, 11));
        assert(b32_contrib(s, 16, 11) == (0u8));
        assert(b32_byte(s, 11, 18) == b32_byte(s, 11, 17) | b32_contrib(s, 17, 11));
        assert(b32_contrib(s, 17, 11) == (v17 << 6u8));
        assert(b32_byte(s, 11, 19) == b32_byte(s, 11, 18) | b32_contrib(s, 18, 11));
        assert(b32_contrib(s, 18, 11) == ((v18 << 3u8) >> 2u8));
        assert(b32_byte(s, 11, 20) == b32_byte(s, 11, 19) | b32_contrib(s, 19, 11));
        assert(b32_contrib(s, 19, 11) == ((v19 << 3u8) >> 7u8));
        assert(((((0u8 | (0u8)) | (v17 << 6u8)) | ((v18 << 3u8) >> 2u8)) | ((v19 << 3u8) >> 7u8)) == x11) by (bit_vector)
            requires
                v16 == (((((x10 as u16) << 8u16) | (x11 as u16)) >> 11u16) & 31) as u8,
                v17 == (((((x10 as u16) << 8u16) | (x11 as u16)) >> 6u16) & 31) as u8,
                v18 == (((((x11 as u16) << 8u16) | (x12 as u16)) >> 9u16) & 31) as u8,
                v19 == (((((x11 as u16) << 8u16) | (x12 as u16)) >> 4u16) & 31) as u8,
        ;
    }
    // byte 12 is rebuilt from characters 18 to 20
    assert(b32_byte(s, 12, 32) == x[12]) by {
        let x11 = x[11];
        let x12 = x[12];
        let x13 = x[13];
        let v18 = b32_char_val(s[18]);
        assert(v18 == b32_bits(x, 18));
        assert(v18 == (((((x11 as u16) << 8u16) | (x12 as u16)) >> 9u16) & 31) as u8);
        let v19 = b32_char_val(s[19]);
        assert(v19 == b32_bits(x, 19));
        assert(v19 == (((((x11 as u16) << 8u16) | (x12 as u16)) >> 4u16) & 31) as u8);
        let v20 = b32_char_val(s[20]);
        assert(v20 == b32_bits(x, 20));
        assert(v20 == (((((x12 as u16) << 8u16) | (x13 as u16)) >> 7u16) & 31) as u8);
        assert forall|i: int| 21 <= i < 32 implies b32_contrib(s, i, 12) == 0 by {
            vstd::arithmetic::div_mod::lemma_fundamental_div_mod(i * 5, 8);
        }
        lemma_b32_byte_skip(s, 12, 21, 32);
        assert forall|i: int| 0 <= i < 18 implies b32_contrib(s, i, 12) == 0 by {
            vstd::arithmetic::div_mod::lemma_fundamental_div_mod(i * 5, 8);
        }
        lemma_b32_byte_skip(s, 12, 0, 18);
        assert(b32_byte(s, 12, 0) == 0);
        assert(b32_byte(s, 12, 19) == b32_byte(s, 12, 18) | b32_contrib(s, 18, 12));
        assert(b32_contrib(s, 18, 12) == (0u8));
        assert(b32_byte(s, 12, 20) == b32_byte(s, 12, 19) | b32_contrib(s, 19, 12));
        assert(b32_contrib(s, 19, 12) == (v19 << 4u8));
        assert(b32_byte(s, 12, 21) == b32_byte(s, 12, 20) | b32_contrib(s, 20, 12));
        assert(b32_contrib(s, 20, 12) == ((v20 << 3u8) >> 4u8));
        assert((((0u8 | (0u8)) | (v19 << 4u8)) | ((v20 << 3u8) >> 4u8)) == x12) by (bit_vector)
            requires
                v18 == (((((x11 as u16) << 8u16) | (x12 as u16)) >> 9u16) & 31) as u8,
                v19 == (((((x11 as u16) << 8u16) | (x12 as u16)) >> 4u16) & 31) as u8,
                v20 == (((((x12 as u16) << 8u16) | (x13 as u16)) >> 7u16) & 31) as u8,
        ;
    }
    // byte 13 is rebuilt from characters 20 to 22
    assert(b32_byte(s, 13, 32) == x[13]) by {
        let x12 = x[12];
        let x13 = x[13];
        let x14 = x[14];
        let v20 = b32_char_val(s[20]);
        assert(v20 == b32_bits(x, 20));
        assert(v20 == (((((x12 as u16) << 8u16) | (x13 as u16)) >> 7u16) & 31) as u8);
        let v21 = b32_char_val(s[21]);
        assert(v21 == b32_bits(x, 21));
        assert(v21 == (((((x13 as u16) << 8u16) | (x14 as u16)) >> 10u16) & 31) as u8);
        let v22 = b32_char_val(s[22]);
        assert(v22 == b32_bits(x, 22));
        assert(v22 == (((((x13 as u16) << 8u16) | (x14 as u16)) >> 5u16) & 31) as u8);
        assert forall|i: int| 23 <= i < 32 implies b32_contrib(s, i, 13) == 0 by {
            vstd::arithmetic::div_mod::lemma_fundamental_div_mod(i * 5, 8);
        }
        lemma_b32_byte_skip(s, 13, 23, 32);
        assert forall|i: int| 0 <= i < 20 implies b32_contrib(s, i, 13) == 0 by {
            vstd::arithmetic::div_mod::lemma_fundamental_div_mod(i * 5, 8);
        }
        lemma_b32_byte_skip(s, 13, 0, 20);
        assert(b32_byte(s, 13, 0) == 0);
        assert(b32_byte(s, 13, 21) == b32_byte(s, 13, 20) | b32_contrib(s, 20, 13));
        assert(b32_contrib(s, 20, 13) == (v20 << 7u8));
        assert(b32_byte(s, 13, 22) == b32_byte(s, 13, 21) | b32_contrib(s, 21, 13));
        assert(b32_contrib(s, 21, 13) == ((v21 << 3u8) >> 1u8));
        assert(b32_byte(s, 13, 23) == b32_byte(s, 13, 22) | b32_contrib(s, 22, 13));
        assert(b32_contrib(s, 22, 13) == ((v22 << 3u8) >> 6u8));
        assert((((0u8 | (v20 << 7u8)) | ((v21 << 3u8) >> 1u8)) | ((v22 << 3u8) >> 6u8)) == x13) by (bit_vector)
            requires
                v20 == (((((x12 as u16) << 8u16) | (x13 as u16)) >> 7u16) & 31) as u8,
                v21 == (((((x13 as u16) << 8u16) | (x14 as u16)) >> 10u16) & 31) as u8,
                v22 == (((((x13 as u16) << 8u16) | (x14 as u16)) >> 5u16) & 31) as u8,
        ;
    }
    // byte 14 is rebuilt from characters 21 to 23
    assert(b32_byte(s, 14, 32) == x[14]) by {
        let x13 = x[13];
        let x14 = x[14];
        let x15 = x[15];
        let v21 = b32_char_val(s[21]);
        assert(v21 == b32_bits(x, 21));
        assert(v21 == (((((x13 as u16) << 8u16) | (x14 as u16)) >> 10u16) & 31) as u8);
        let v22 = b32_char_val(s[22]);
        assert(v22 == b32_bits(x, 22));
        assert(v22 == (((((x13 as u16) << 8u16) | (x14 as u16)) >> 5u16) & 31) as u8);
        let v23 = b32_char_val(s[23]);
        assert(v23 == b32_bits(x, 23));
        assert(v23 == (((((x14 as u16) << 8u16) | (x15 as u16)) >> 8u16) & 31) as u8);
        assert forall|i: int| 24 <= i < 32 implies b32_contrib(s, i, 14) == 0 by {
            vstd::arithmetic::div_mod::lemma_fundamental_div_mod(i * 5, 8);
        }
        lemma_b32_byte_skip(s, 14, 24, 32);
        assert forall|i: int| 0 <= i < 21 implies b32_contrib(s, i, 14) == 0 by {
            vstd::arithmetic::div_mod::lemma_fundamental_div_mod(i * 5, 8);
        }
        lemma_b32_byte_skip(s, 14, 0, 21);
        assert(b32_byte(s, 14, 0) == 0);
        assert(b32_byte(s, 14, 22) == b32_byte(s, 14, 21) | b32_contrib(s, 21, 14));
        assert(b32_contrib(s, 21, 14) == (0u8));
        assert(b32_byte(s, 14, 23) == b32_byte(s, 14, 22) | b32_contrib(s, 22, 14));
        assert(b32_contrib(s, 22, 14) == (v22 << 5u8));
        assert(b32_byte(s, 14, 24) == b32_byte(s, 14, 23) | b32_contrib(s, 23, 14));
        assert(b32_contrib(s, 23, 14) == ((v23 << 3u8) >> 3u8));
        assert((((0u8 | (0u8)) | (v22 << 5u8)) | ((v23 << 3u8) >> 3u8)) == x14) by (bit_vector)
            requires
                v21 == (((((x13 as u16) << 8u16) | (x14 as u16)) >> 10u16) & 31) as u8,
                v22 == (((((x13 as u16) << 8u16) | (x14 as u16)) >> 5u16) & 31) as u8,
                v23 == (((((x14 as u16) << 8u16) | (x15 as u16)) >> 8u16) & 31) as u8,
        ;
    }
    // byte 15 is rebuilt from characters 23 to 25
    assert(b32_byte(s, 15, 32) == x[15]) by {
        let x14 = x[14];
        let x15 = x[15];
        let x16 = x[16];
        let v23 = b32_char_val(s[23]);
        assert(v23 == b32_bits(x, 23));
        assert(v23 == (((((x14 as u16) << 8u16) | (x15 as u16)) >> 8u16) & 31) as u8);
        let v24 = b32_char_val(s[24]);
        assert(v24 == b32_bits(x, 24));
        assert(v24 == (((((x15 as u16) << 8u16) | (x16 as u16)) >> 11u16) & 31) as u8);
        let v25 = b32_char_val(s[25]);
        assert(v25 == b32_bits(x, 25));
        assert(v25 == (((((x15 as u16) << 8u16) | (x16 as u16)) >> 6u16) & 31) as u8);
        assert forall|i: int| 26 <= i < 32 implies b32_contrib(s, i, 15) == 0 by {
            vstd::arithmetic::div_mod::lemma_fundamental_div_mod(i * 5, 8);
        }
        lemma_b32_byte_skip(s, 15, 26, 32);
        assert forall|i: int| 0 <= i < 23 implies b32_contrib(s, i, 15) == 0 by {
            vstd::arithmetic::div_mod::lemma_fundamental_div_mod(i * 5, 8);
        }
        lemma_b32_byte_skip(s, 15, 0, 23);
        assert(b32_byte(s, 15, 0) == 0);
        assert(b32_byte(s, 15, 24) == b32_byte(s, 15, 23) | b32_contrib(s, 23, 15));
        assert(b32_contrib(s, 23, 15) == (0u8));
        assert(b32_byte(s, 15, 25) == b32_byte(s, 15, 24) | b32_contrib(s, 24, 15));
        assert(b32_contrib(s, 24, 15) == ((v24 << 3u8) >> 0u8));
        assert(b32_byte(s, 15, 26) == b32_byte(s, 15, 25) | b32_contrib(s, 25, 15));
        assert(b32_contrib(s, 25, 15) == ((v25 << 3u8) >> 5u8));
        assert((((0u8 | (0u8)) | ((v24 << 3u8) >> 0u8)) | ((v25 << 3u8) >> 5u8)) == x15) by (bit_vector)
            requires
                v23 == (((((x14 as u16) << 8u16) | (x15 as u16)) >> 8u16) & 31) as u8,
                v24 == (((((x15 as u16) << 8u16) | (x16 as u16)) >> 11u16) & 31) as u8,
                v25 == (((((x15 as u16) << 8u16) | (x16 as u16)) >> 6u16) & 31) as u8,
        ;
    }
    // byte 16 is rebuilt from characters 24 to 27
    assert(b32_byte(s, 16, 32) == x[16]) by {
        let x15 = x[15];
        let x16 = x[16];
        let x17 = x[17];
        let v24 = b32_char_val(s[24]);
        assert(v24 == b32_bits(x, 24));
        assert(v24 == (((((x15 as u16) << 8u16) | (x16 as u16)) >> 11u16) & 31) as u8);
        let v25 = b32_char_val(s[25]);
        assert(v25 == b32_bits(x, 25));
        assert(v25 == (((((x15 as u16) << 8u16) | (x16 as u16)) >> 6u16) & 31) as u8);
        let v26 = b32_char_val(s[26]);
        assert(v26 == b32_bits(x, 26));
        assert(v26 == (((((x16 as u16) << 8u16) | (x17 as u16)) >> 9u16) & 31) as u8);
        let v27 = b32_char_val(s[27]);
        assert(v27 == b32_bits(x, 27));
        assert(v27 == (((((x16 as u16) << 8u16) | (x17 as u16)) >> 4u16) & 31) as u8);
        assert forall|i: int| 28 <= i < 32 implies b32_contrib(s, i, 16) == 0 by {
            vstd::arithmetic::div_mod::lemma_fundamental_div_mod(i * 5, 8);
        }
        lemma_b32_byte_skip(s, 16, 28, 32);
        assert forall|i: int| 0 <= i < 24 implies b32_contrib(s, i, 16) == 0 by {
            vstd::arithmetic::div_mod::lemma_fundamental_div_mod(i * 5, 8);
        }
        lemma_b32_byte_skip(s, 16, 0, 24);
        assert(b32_byte(s, 16, 0) == 0);
        assert(b32_byte(s, 16, 25) == b32_byte(s, 16, 24) | b32_contrib(s, 24, 16));
        assert(b32_contrib(s, 24, 16) == (0u8));
        assert(b32_byte(s, 16, 26) == b32_byte(s, 16, 25) | b32_contrib(s, 25, 16));
        assert(b32_contrib(s, 25, 16) == (v25 << 6u8));
        assert(b32_byte(s, 16, 27) == b32_byte(s, 16, 26) | b32_contrib(s, 26, 16));
        assert(b32_contrib(s, 26, 16) == ((v26 << 3u8) >> 2u8));
        assert(b32_byte(s, 16, 28) == b32_byte(s, 16, 27) | b32_contrib(s, 27, 16));
        assert(b32_contrib(s, 27, 16) == ((v27 << 3u8) >> 7u8));
        assert(((((0u8 | (0u8)) | (v25 << 6u8)) | ((v26 << 3u8) >> 2u8)) | ((v27 << 3u8) >> 7u8)) == x16) by (bit_vector)
            requires
                v24 == (((((x15 as u16) << 8u16) | (x16 as u16)) >> 11u16) & 31) as u8,
                v25 == (((((x15 as u16) << 8u16) | (x16 as u16)) >> 6u16) & 31) as u8,
                v26 == (((((x16 as u16) << 8u16) | (x17 as u16)) >> 9u16) & 31) as u8,
                v27 == (((((x16 as u16) << 8u16) | (x17 as u16)) >> 4u16) & 31) as u8,
        ;
    }
    // byte 17 is rebuilt from characters 26 to 28
    assert(b32_byte(s, 17, 32) == x[17]) by {
        let x16 = x[16];
        let x17 = x[17];
        let x18 = x[18];
        let v26 = b32_char_val(s[26]);
        assert(v26 == b32_bits(x, 26));
        assert(v26 == (((((x16 as u16) << 8u16) | (x17 as u16)) >> 9u16) & 31) as u8);
        let v27 = b32_char_val(s[27]);
        assert(v27 == b32_bits(x, 27));
        assert(v27 == (((((x16 as u16) << 8u16) | (x17 as u16)) >> 4u16) & 31) as u8);
        let v28 = b32_char_val(s[28]);
        assert(v28 == b32_bits(x, 28));
        assert(v28 == (((((x17 as u16) << 8u16) | (x18 as u16)) >> 7u16) & 31) as u8);
        assert forall|i: int| 29 <= i < 32 implies b32_contrib(s, i, 17) == 0 by {
            vstd::arithmetic::div_mod::lemma_fundamental_div_mod(i * 5, 8);
        }
        lemma_b32_byte_skip(s, 17, 29, 32);
        assert forall|i: int| 0 <= i < 26 implies b32_contrib(s, i, 17) == 0 by {
            vstd::arithmetic::div_mod::lemma_fundamental_div_mod(i * 5, 8);
        }
        lemma_b32_byte_skip(s, 17, 0, 26);
        assert(b32_byte(s, 17, 0) == 0);
        assert(b32_byte(s, 17, 27) == b32_byte(s, 17, 26) | b32_contrib(s, 26, 17));
        assert(b32_contrib(s, 26, 17) == (0u8));
        assert(b32_byte(s, 17, 28) == b32_byte(s, 17, 27) | b32_contrib(s, 27, 17));
        assert(b32_contrib(s, 27, 17) == (v27 << 4u8));
        assert(b32_byte(s, 17, 29) == b32_byte(s, 17, 28) | b32_contrib(s, 28, 17));
        assert(b32_contrib(s, 28, 17) == ((v28 << 3u8) >> 4u8));
        assert((((0u8 | (0u8)) | (v27 << 4u8)) | ((v28 << 3u8) >> 4u8)) == x17) by (bit_vector)
            requires
                v26 == (((((x16 as u16) << 8u16) | (x17 as u16)) >> 9u16) & 31) as u8,
                v27 == (((((x16 as u16) << 8u16) | (x17 as u16)) >> 4u16) & 31) as u8,
                v28 == (((((x17 as u16) << 8u16) | (x18 as u16)) >> 7u16) & 31) as u8,
        ;
    }
    // byte 18 is rebuilt from characters 28 to 30
    assert(b32_byte(s, 18, 32) == x[18]) by {
        let x17 = x[17];
        let x18 = x[18];
        let x19 = x[19];
        let v28 = b32_char_val(s[28]);
        assert(v28 == b32_bits(x, 28));
        assert(v28 == (((((x17 as u16) << 8u16) | (x18 as u16)) >> 7u16) & 31) as u8);
        let v29 = b32_char_val(s[29]);
        assert(v29 == b32_bits(x, 29));
        assert(v29 == (((((x18 as u16) << 8u16) | (x19 as u16)) >> 10u16) & 31) as u8);
        let v30 = b32_char_val(s[30]);
        assert(v30 == b32_bits(x, 30));
        assert(v30 == (((((x18 as u16) << 8u16) | (x19 as u16)) >> 5u16) & 31) as u8);
        assert forall|i: int| 31 <= i < 32 implies b32_contrib(s, i, 18) == 0 by {
            vstd::arithmetic::div_mod::lemma_fundamental_div_mod(i * 5, 8);
        }
        lemma_b32_byte_skip(s, 18, 31, 32);
        assert forall|i: int| 0 <= i < 28 implies b32_contrib(s, i, 18) == 0 by {
            vstd::arithmetic::div_mod::lemma_fundamental_div_mod(i * 5, 8);
        }
        lemma_b32_byte_skip(s, 18, 0, 28);
        assert(b32_byte(s, 18, 0) == 0);
        assert(b32_byte(s, 18, 29) == b32_byte(s, 18, 28) | b32_contrib(s, 28, 18));
        assert(b32_contrib(s, 28, 18) == (v28 << 7u8));
        assert(b32_byte(s, 18, 30) == b32_byte(s, 18, 29) | b32_contrib(s, 29, 18));
        assert(b32_contrib(s, 29, 18) == ((v29 << 3u8) >> 1u8));
        assert(b32_byte(s, 18, 31) == b32_byte(s, 18, 30) | b32_contrib(s, 30, 18));
        assert(b32_contrib(s, 30, 18) == ((v30 << 3u8) >> 6u8));
        assert((((0u8 | (v28 << 7u8)) | ((v29 << 3u8) >> 1u8)) | ((v30 << 3u8) >> 6u8)) == x18) by (bit_vector)
            requires
                v28 == (((((x17 as u16) << 8u16) | (x18 as u16)) >> 7u16) & 31) as u8,
                v29 == (((((x18 as u16) << 8u16) | (x19 as u16)) >> 10u16) & 31) as u8,
                v30 == (((((x18 as u16) << 8u16) | (x19 as u16)) >> 5u16) & 31) as u8,
        ;
    }
    // byte 19 is rebuilt from characters 29 to 31
    assert(b32_byte(s, 19, 32) == x[19]) by {
        let x18 = x[18];
        let x19 = x[19];
        let v29 = b32_char_val(s[29]);
        assert(v29 == b32_bits(x, 29));
        assert(v29 == (((((x18 as u16) << 8u16) | (x19 as u16)) >> 10u16) & 31) as u8);
        let v30 = b32_char_val(s[30]);
        assert(v30 == b32_bits(x, 30));
        assert(v30 == (((((x18 as u16) << 8u16) | (x19 as u16)) >> 5u16) & 31) as u8);
        let v31 = b32_char_val(s[31]);
        assert(v31 == b32_bits(x, 31));
        assert(v31 == (((((x19 as u16) << 8u16) | 0u16) >> 8u16) & 31) as u8);
        assert forall|i: int| 32 <= i < 32 implies b32_contrib(s, i, 19) == 0 by {
            vstd::arithmetic::div_mod::lemma_fundamental_div_mod(i * 5, 8);
        }
        lemma_b32_byte_skip(s, 19, 32, 32);
        assert forall|i: int| 0 <= i < 29 implies b32_contrib(s, i, 19) == 0 by {
            vstd::arithmetic::div_mod::lemma_fundamental_div_mod(i * 5, 8);
        }
        lemma_b32_byte_skip(s, 19, 0, 29);
        assert(b32_byte(s, 19, 0) == 0);
        assert(b32_byte(s, 19, 30) == b32_byte(s, 19, 29) | b32_contrib(s, 29, 19));
        assert(b32_contrib(s, 29, 19) == (0u8));
        assert(b32_byte(s, 19, 31) == b32_byte(s, 19, 30) | b32_contrib(s, 30, 19));
        assert(b32_contrib(s, 30, 19) == (v30 << 5u8));
        assert(b32_byte(s, 19, 32) == b32_byte(s, 19, 31) | b32_contrib(s, 31, 19));
        assert(b32_contrib(s, 31, 19) == ((v31 << 3u8) >> 3u8));
        assert((((0u8 | (0u8)) | (v30 << 5u8)) | ((v31 << 3u8) >> 3u8)) == x19) by (bit_vector)
            requires
                v29 == (((((x18 as u16) << 8u16) | (x19 as u16)) >> 10u16) & 31) as u8,
                v30 == (((((x18 as u16) << 8u16) | (x19 as u16)) >> 5u16) & 31) as u8,
                v31 == (((((x19 as u16) << 8u16) | 0u16) >> 8u16) & 31) as u8,
        ;
    }
    assert(b32_value(s, 20) =~= x);
}

} // verus!
