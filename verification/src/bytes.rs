//! Big-endian integer decoding and MIDI variable-length quantities.
use vstd::prelude::*;

verus! {

/// The value of two big-endian bytes.
pub open spec fn be16(b0: u8, b1: u8) -> int {
    b0 * 256 + b1
}

/// The value of three big-endian bytes.
pub open spec fn be24(b0: u8, b1: u8, b2: u8) -> int {
    b0 * 65536 + b1 * 256 + b2
}

/// The value of four big-endian bytes.
pub open spec fn be32(b0: u8, b1: u8, b2: u8, b3: u8) -> int {
    b0 * 16777216 + b1 * 65536 + b2 * 256 + b3
}

/// Reads four bytes as a big-endian unsigned integer.
pub fn as_u32_be(array: &[u8; 4]) -> (r: u32)
    ensures
        r == be32(array[0], array[1], array[2], array[3]),
{
    let a: u32 = array[0] as u32;
    let b: u32 = array[1] as u32;
    let c: u32 = array[2] as u32;
    let d: u32 = array[3] as u32;
    assert((a << 24) == a * 16777216 && (b << 16) == b * 65536 && (c << 8) == c * 256 && (d << 0) == d)
        by (bit_vector)
        requires
            a < 256 && b < 256 && c < 256 && d < 256,
    ;
    (a << 24) + (b << 16) + (c << 8) + (d << 0)
}

/// Reads two bytes as a big-endian unsigned integer.
pub fn as_u16_be(array: &[u8; 2]) -> (r: u16)
    ensures
        r == be16(array[0], array[1]),
{
    let a: u16 = array[0] as u16;
    let b: u16 = array[1] as u16;
    assert((a << 8) == a * 256 && (b << 0) == b) by (bit_vector)
        requires
            a < 256 && b < 256,
    ;
    (a << 8) + (b << 0)
}

/// Reads three bytes as a big-endian unsigned integer, widened to 64 bits.
pub fn as_u24_be(array: &[u8; 3]) -> (r: u64)
    ensures
        r == be24(array[0], array[1], array[2]),
{
    let a: u64 = array[0] as u64;
    let b: u64 = array[1] as u64;
    let c: u64 = array[2] as u64;
    assert((a << 16) == a * 65536 && (b << 8) == b * 256 && (c << 0) == c) by (bit_vector)
        requires
            a < 256 && b < 256 && c < 256,
    ;
    (a << 16) + (b << 8) + (c << 0)
}

/// Why a file could not be read.
#[derive(Clone, Copy, Debug, PartialEq, Eq, Structural)]
pub enum ParseError {
    /// A byte or a range of bytes lies past the end of the input.
    Truncated,
    /// An arithmetic step does not fit its integer type.
    Overflow,
    /// The file's time division is zero, so no event time can be computed.
    ZeroDivision,
}

/// Reads the continuation of a variable-length quantity whose byte at `p` has
/// already been taken into `acc` (seven bits per byte, most significant first,
/// the high bit set on every byte but the last). The result is the index of
/// the last byte and the value; bits shifted past 64 are lost.
pub open spec fn vlq_u64_from(data: Seq<u8>, p: int, acc: u64) -> Result<(int, u64), ParseError>
    decreases data.len() - p,
{
    if p < 0 || p >= data.len() {
        Err(ParseError::Truncated)
    } else if data[p] & 0x80 == 0 {
        Ok((p, acc))
    } else if p + 1 >= data.len() {
        Err(ParseError::Truncated)
    } else {
        vlq_u64_from(data, p + 1, (acc << 7) | ((data[p + 1] & 0x7F) as u64))
    }
}

/// The variable-length quantity that starts at `start`, read into 64 bits.
pub open spec fn vlq_u64(data: Seq<u8>, start: int) -> Result<(int, u64), ParseError> {
    if start < 0 || start >= data.len() {
        Err(ParseError::Truncated)
    } else {
        vlq_u64_from(data, start, (data[start] & 0x7F) as u64)
    }
}

/// As `vlq_u64_from`, read into a `usize`.
pub open spec fn vlq_usize_from(data: Seq<u8>, p: int, acc: usize) -> Result<(int, usize), ParseError>
    decreases data.len() - p,
{
    if p < 0 || p >= data.len() {
        Err(ParseError::Truncated)
    } else if data[p] & 0x80 == 0 {
        Ok((p, acc))
    } else if p + 1 >= data.len() {
        Err(ParseError::Truncated)
    } else {
        vlq_usize_from(data, p + 1, (acc << 7) | ((data[p + 1] & 0x7F) as usize))
    }
}

/// The variable-length quantity that starts at `start`, read into a `usize`.
pub open spec fn vlq_usize(data: Seq<u8>, start: int) -> Result<(int, usize), ParseError> {
    if start < 0 || start >= data.len() {
        Err(ParseError::Truncated)
    } else {
        vlq_usize_from(data, start, (data[start] & 0x7F) as usize)
    }
}

/// Reads the variable-length quantity that starts at `start`: returns the
/// index of its last byte and its value.
pub fn read_vlq(data: &[u8], start: usize) -> (r: Result<(usize, u64), ParseError>)
    ensures
        match r {
            Ok((k, v)) => vlq_u64(data@, start as int) == Ok::<(int, u64), ParseError>((k as int, v)),
            Err(e) => vlq_u64(data@, start as int) == Err::<(int, u64), ParseError>(e),
        },
{
    if start >= data.len() {
        return Err(ParseError::Truncated);
    }
    let mut p: usize = start;
    let mut acc: u64 = (data[p] & 0x7F) as u64;
    while data[p] & 0x80 != 0
        invariant
            p < data@.len(),
            vlq_u64(data@, start as int) == vlq_u64_from(data@, p as int, acc),
        decreases data@.len() - p,
    {
        if p + 1 >= data.len() {
            return Err(ParseError::Truncated);
        }
        p = p + 1;
        acc = (acc << 7) | ((data[p] & 0x7F) as u64);
    }
    Ok((p, acc))
}

/// Reads the variable-length quantity that starts at `start` into a `usize`:
/// returns the index of its last byte and its value.
pub fn read_vlq_usize(data: &[u8], start: usize) -> (r: Result<(usize, usize), ParseError>)
    ensures
        match r {
            Ok((k, v)) => vlq_usize(data@, start as int) == Ok::<(int, usize), ParseError>((k as int, v)),
            Err(e) => vlq_usize(data@, start as int) == Err::<(int, usize), ParseError>(e),
        },
{
    if start >= data.len() {
        return Err(ParseError::Truncated);
    }
    let mut p: usize = start;
    let mut acc: usize = (data[p] & 0x7F) as usize;
    while data[p] & 0x80 != 0
        invariant
            p < data@.len(),
            vlq_usize(data@, start as int) == vlq_usize_from(data@, p as int, acc),
        decreases data@.len() - p,
    {
        if p + 1 >= data.len() {
            return Err(ParseError::Truncated);
        }
        p = p + 1;
        acc = (acc << 7) | ((data[p] & 0x7F) as usize);
    }
    Ok((p, acc))
}

/// The base-128 number that the low seven bits of the bytes `data[start]` to
/// `data[k]` form, most significant first.
pub open spec fn seven_bit_number(data: Seq<u8>, start: int, k: int) -> int
    decreases k - start,
{
    if k <= start {
        (data[start] % 128) as int
    } else {
        seven_bit_number(data, start, k - 1) * 128 + data[k] % 128
    }
}

proof fn lemma_shift_in_u64(acc: u64, b: u8, s: int)
    requires
        s >= 0,
        acc as int == s % 0x1_0000_0000_0000_0000,
    ensures
        ((acc << 7) | ((b & 0x7F) as u64)) as int == (s * 128 + b % 128) % 0x1_0000_0000_0000_0000,
{
    let m: int = 0x1_0000_0000_0000_0000;
    assert(b & 0x7F == b % 128) by (bit_vector);
    let d: u64 = (b & 0x7F) as u64;
    assert((acc << 7) | d == ((acc * 128 + d) % 0x1_0000_0000_0000_0000) as u64) by (bit_vector)
        requires
            d < 128,
    ;
    vstd::arithmetic::div_mod::lemma_mul_mod_noop_left(s, 128, m);
    vstd::arithmetic::div_mod::lemma_add_mod_noop(acc * 128, d as int, m);
    vstd::arithmetic::div_mod::lemma_add_mod_noop(s * 128, d as int, m);
    vstd::arithmetic::div_mod::lemma_small_mod(d as nat, m as nat);
    vstd::arithmetic::div_mod::lemma_mod_twice(acc * 128, m);
}

proof fn lemma_shift_in_usize(acc: usize, b: u8)
    requires
        acc * 128 + b % 128 <= usize::MAX,
    ensures
        ((acc << 7) | ((b & 0x7F) as usize)) as int == acc * 128 + b % 128,
{
    assert(b & 0x7F == b % 128) by (bit_vector);
    let d: usize = (b & 0x7F) as usize;
    assert((acc << 7) | d == (acc << 7) + d) by (bit_vector)
        requires
            d < 128,
    ;
    vstd::arithmetic::power2::lemma2_to64();
    vstd::bits::lemma_usize_shl_is_mul(acc, 7);
}

proof fn lemma_seven_bit_number_grows(data: Seq<u8>, start: int, j: int, k: int)
    requires
        start <= j <= k,
    ensures
        0 <= seven_bit_number(data, start, j) <= seven_bit_number(data, start, k),
    decreases k - start,
{
    if k > start {
        if j < k {
            lemma_seven_bit_number_grows(data, start, j, k - 1);
        } else {
            lemma_seven_bit_number_grows(data, start, k - 1, k - 1);
        }
    }
}

proof fn lemma_high_bit(b: u8)
    ensures
        (b & 0x80 == 0) == (b < 0x80),
{
    assert((b & 0x80 == 0) == (b < 0x80)) by (bit_vector);
}

proof fn lemma_vlq_u64_from_value(data: Seq<u8>, start: int, p: int, acc: u64)
    requires
        0 <= start <= p < data.len(),
        forall|i: int| start <= i < p ==> data[i] >= 0x80,
        acc as int == seven_bit_number(data, start, p) % 0x1_0000_0000_0000_0000,
    ensures
        match vlq_u64_from(data, p, acc) {
            Ok((k, v)) => p <= k < data.len() && (forall|i: int| start <= i < k ==> data[i] >= 0x80)
                && data[k] < 0x80 && v as int == seven_bit_number(data, start, k) % 0x1_0000_0000_0000_0000,
            Err(e) => e == ParseError::Truncated && forall|i: int| start <= i < data.len() ==> data[i] >= 0x80,
        },
    decreases data.len() - p,
{
    lemma_high_bit(data[p]);
    if data[p] & 0x80 != 0 && p + 1 < data.len() {
        lemma_seven_bit_number_grows(data, start, p, p);
        lemma_shift_in_u64(acc, data[p + 1], seven_bit_number(data, start, p));
        lemma_vlq_u64_from_value(data, start, p + 1, (acc << 7) | ((data[p + 1] & 0x7F) as u64));
    }
}

proof fn lemma_vlq_usize_from_value(data: Seq<u8>, start: int, p: int, acc: usize)
    requires
        0 <= start <= p < data.len(),
        forall|i: int| start <= i < p ==> data[i] >= 0x80,
        acc as int == seven_bit_number(data, start, p),
    ensures
        match vlq_usize_from(data, p, acc) {
            Ok((k, v)) => p <= k < data.len() && (forall|i: int| start <= i < k ==> data[i] >= 0x80)
                && data[k] < 0x80
                && (seven_bit_number(data, start, k) <= usize::MAX ==> v as int == seven_bit_number(data, start, k)),
            Err(e) => e == ParseError::Truncated && forall|i: int| start <= i < data.len() ==> data[i] >= 0x80,
        },
    decreases data.len() - p,
{
    lemma_high_bit(data[p]);
    if data[p] & 0x80 != 0 && p + 1 < data.len() {
        let next = (acc << 7) | ((data[p + 1] & 0x7F) as usize);
        if seven_bit_number(data, start, p + 1) <= usize::MAX {
            lemma_shift_in_usize(acc, data[p + 1]);
            lemma_vlq_usize_from_value(data, start, p + 1, next);
        } else {
            lemma_vlq_usize_from_shape(data, start, p + 1, next);
            if let Ok((k, v)) = vlq_usize_from(data, p + 1, next) {
                lemma_seven_bit_number_grows(data, start, p + 1, k);
            }
        }
    }
}

proof fn lemma_vlq_usize_from_shape(data: Seq<u8>, start: int, p: int, acc: usize)
    requires
        0 <= start <= p < data.len(),
        forall|i: int| start <= i < p ==> data[i] >= 0x80,
    ensures
        match vlq_usize_from(data, p, acc) {
            Ok((k, v)) => p <= k < data.len() && (forall|i: int| start <= i < k ==> data[i] >= 0x80)
                && data[k] < 0x80,
            Err(e) => e == ParseError::Truncated && forall|i: int| start <= i < data.len() ==> data[i] >= 0x80,
        },
    decreases data.len() - p,
{
    lemma_high_bit(data[p]);
    if data[p] & 0x80 != 0 && p + 1 < data.len() {
        lemma_vlq_usize_from_shape(data, start, p + 1, (acc << 7) | ((data[p + 1] & 0x7F) as usize));
    }
}

/// A variable-length quantity runs from `start` through the first byte below
/// 0x80, every earlier byte having its high bit set; its value is the
/// base-128 number of the low seven bits of those bytes, most significant
/// first, kept to 64 bits. It fails only where no byte below 0x80 follows.
pub proof fn law_vlq_u64(data: Seq<u8>, start: int)
    requires
        0 <= start,
    ensures
        vlq_u64(data, start) matches Ok((k, v)) ==> {
            &&& start <= k < data.len()
            &&& forall|i: int| start <= i < k ==> data[i] >= 0x80
            &&& data[k] < 0x80
            &&& v as int == seven_bit_number(data, start, k) % 0x1_0000_0000_0000_0000
        },
        vlq_u64(data, start) is Err ==> forall|i: int| start <= i < data.len() ==> data[i] >= 0x80,
{
    if start < data.len() {
        let b = data[start];
        assert(b & 0x7F == b % 128) by (bit_vector);
        vstd::arithmetic::div_mod::lemma_small_mod((data[start] % 128) as nat, 0x1_0000_0000_0000_0000);
        lemma_vlq_u64_from_value(data, start, start, (data[start] & 0x7F) as u64);
    }
}

/// The same for a quantity read into a `usize`: the same bytes, and the
/// base-128 value whenever it fits in a `usize`.
pub proof fn law_vlq_usize(data: Seq<u8>, start: int)
    requires
        0 <= start,
    ensures
        vlq_usize(data, start) matches Ok((k, v)) ==> {
            &&& start <= k < data.len()
            &&& forall|i: int| start <= i < k ==> data[i] >= 0x80
            &&& data[k] < 0x80
            &&& seven_bit_number(data, start, k) <= usize::MAX ==> v as int == seven_bit_number(data, start, k)
        },
        vlq_usize(data, start) is Err ==> forall|i: int| start <= i < data.len() ==> data[i] >= 0x80,
{
    if start < data.len() {
        let b = data[start];
        assert(b & 0x7F == b % 128) by (bit_vector);
        lemma_vlq_usize_from_value(data, start, start, (data[start] & 0x7F) as usize);
    }
}

/// Reading the big-endian bytes of a number gives the number back, for every
/// 32-, 24- and 16-bit value: the first byte is the most significant.
pub proof fn law_big_endian_round_trip(x: u32, y: u16)
    ensures
        be32((x >> 24) as u8, ((x >> 16) & 0xFF) as u8, ((x >> 8) & 0xFF) as u8, (x & 0xFF) as u8) == x,
        x < 0x100_0000 ==> be24(((x >> 16) & 0xFF) as u8, ((x >> 8) & 0xFF) as u8, (x & 0xFF) as u8) == x,
        be16((y >> 8) as u8, (y & 0xFF) as u8) == y,
{
    let a: u8 = (x >> 24) as u8;
    let b: u8 = ((x >> 16) & 0xFF) as u8;
    let c: u8 = ((x >> 8) & 0xFF) as u8;
    let d: u8 = (x & 0xFF) as u8;
    assert(a * 16777216 + b * 65536 + c * 256 + d == x) by (bit_vector)
        requires
            a == (x >> 24) as u8,
            b == ((x >> 16) & 0xFF) as u8,
            c == ((x >> 8) & 0xFF) as u8,
            d == (x & 0xFF) as u8,
    ;
    assert(x < 0x100_0000 ==> b * 65536 + c * 256 + d == x) by (bit_vector)
        requires
            b == ((x >> 16) & 0xFF) as u8,
            c == ((x >> 8) & 0xFF) as u8,
            d == (x & 0xFF) as u8,
    ;
    let e: u8 = (y >> 8) as u8;
    let f: u8 = (y & 0xFF) as u8;
    assert(e * 256 + f == y) by (bit_vector)
        requires
            e == (y >> 8) as u8,
            f == (y & 0xFF) as u8,
    ;
}
} // verus!
