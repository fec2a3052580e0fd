//! Reading a 16-bit number given on the command line, in decimal or, with a
//! `0x` prefix, in hexadecimal.
use vstd::prelude::*;
use vstd::string::StringSliceAdditionalSpecFns;

verus! {

/// Removes every leading repetition of the two bytes "0x".
pub open spec fn strip_hex_prefix(b: Seq<u8>) -> Seq<u8>
    decreases b.len(),
{
    if b.len() >= 2 && b[0] == 48 && b[1] == 120 {
        strip_hex_prefix(b.subrange(2, b.len() as int))
    } else {
        b
    }
}

/// The value of one ASCII digit or letter in base `radix` (letters count
/// from ten, in either case), if it is a digit of that base.
pub open spec fn digit_of(c: u8, radix: u32) -> Option<int> {
    let d: int = if 48 <= c <= 57 {
        c - 48
    } else if 97 <= c <= 122 {
        c - 97 + 10
    } else if 65 <= c <= 90 {
        c - 65 + 10
    } else {
        36
    };
    if d < radix {
        Some(d)
    } else {
        None
    }
}

/// The value of a string of digits in base `radix`, most significant first;
/// the empty string is worth zero.
pub open spec fn digits_value(b: Seq<u8>, radix: u32) -> Option<int>
    decreases b.len(),
{
    if b.len() == 0 {
        Some(0)
    } else {
        match (digits_value(b.drop_last(), radix), digit_of(b.last(), radix)) {
            (Some(v), Some(d)) => Some(v * radix + d),
            _ => None,
        }
    }
}

/// A 16-bit unsigned number in base `radix`: an optional `+`, then at least
/// one digit, with a value that fits in 16 bits.
pub open spec fn parse_u16(b: Seq<u8>, radix: u32) -> Option<u16> {
    if b.len() == 0 {
        None
    } else if b.len() == 1 && (b[0] == 43 || b[0] == 45) {
        None
    } else {
        let ds = if b[0] == 43 { b.drop_first() } else { b };
        match digits_value(ds, radix) {
            Some(v) => if v <= 65535 { Some(v as u16) } else { None },
            None => None,
        }
    }
}

/// The number that an argument names: hexadecimal after a `0x` prefix
/// (every leading `0x` is dropped), decimal otherwise.
pub open spec fn argument_value(b: Seq<u8>) -> Option<u16> {
    if b.len() >= 2 && b[0] == 48 && b[1] == 120 {
        parse_u16(strip_hex_prefix(b), 16)
    } else {
        parse_u16(b, 10)
    }
}

fn digit(c: u8, radix: u32) -> (r: Option<u32>)
    ensures
        match r {
            Some(d) => digit_of(c, radix) == Some(d as int),
            None => digit_of(c, radix) is None,
        },
{
    let d: u32 = if 48 <= c && c <= 57 {
        (c - 48) as u32
    } else if 97 <= c && c <= 122 {
        (c - 97 + 10) as u32
    } else if 65 <= c && c <= 90 {
        (c - 65 + 10) as u32
    } else {
        36
    };
    if d < radix {
        Some(d)
    } else {
        None
    }
}

proof fn lemma_digits_grow(v: int, radix: u32, d: int)
    requires
        v > 65535,
        radix >= 1,
        d >= 0,
    ensures
        v * radix + d > 65535,
{
    assert(v * radix >= v) by (nonlinear_arith)
        requires
            v > 65535,
            radix >= 1,
    ;
}

/// Reads the bytes `b[start..]` as a 16-bit number in base `radix`.
fn parse_u16_from(b: &[u8], start: usize, radix: u32) -> (r: Option<u16>)
    requires
        start <= b@.len(),
        radix == 10 || radix == 16,
    ensures
        r == parse_u16(b@.subrange(start as int, b@.len() as int), radix),
{
    let ghost s = b@.subrange(start as int, b@.len() as int);
    let len = b.len();
    if start == len {
        return None;
    }
    if len - start == 1 && (b[start] == 43 || b[start] == 45) {
        return None;
    }
    let first = if b[start] == 43 { start + 1 } else { start };
    let ghost ds = if b@[start as int] == 43 { s.drop_first() } else { s };
    assert(ds =~= b@.subrange(first as int, len as int));
    let mut k: usize = first;
    let mut acc: u32 = 0;
    let mut valid: bool = true;
    assert(ds.take(0) =~= Seq::<u8>::empty());
    while k < len
        invariant
            first <= k <= len,
            len == b@.len(),
            ds == b@.subrange(first as int, len as int),
            radix == 10 || radix == 16,
            acc <= 65536,
            valid ==> (digits_value(ds.take(k - first), radix) matches Some(v) && acc == (if v > 65535 { 65536 } else { v })),
            !valid ==> digits_value(ds.take(k - first), radix) is None,
        decreases len - k,
    {
        let ghost pre = ds.take(k - first);
        let ghost next = ds.take(k - first + 1);
        assert(next.drop_last() =~= pre);
        assert(next.last() == b@[k as int]);
        match digit(b[k], radix) {
            None => {
                valid = false;
            },
            Some(d) => {
                if valid {
                    let ghost v = digits_value(pre, radix)->0;
                    if acc == 65536 {
                        proof {
                            lemma_digits_grow(v, radix, d as int);
                        }
                    } else {
                        assert(acc * radix + d <= 65535 * 16 + 36) by (nonlinear_arith)
                            requires
                                acc <= 65535,
                                radix <= 16,
                                d <= 36,
                        ;
                        let n = acc * radix + d;
                        acc = if n > 65535 { 65536 } else { n };
                    }
                }
            },
        }
        k = k + 1;
    }
    assert(ds.take(len - first) =~= ds);
    if valid && acc <= 65535 {
        Some(acc as u16)
    } else {
        None
    }
}

/// Reads a command-line number, as `argument_value` states; `None` where the
/// argument is not a number that fits in 16 bits.
pub fn try_convert_argument(input: &str) -> (r: Option<u16>)
    ensures
        r == argument_value(input.spec_bytes()),
{
    let b = input.as_bytes();
    let len = b.len();
    if len >= 2 && b[0] == 48 && b[1] == 120 {
        let mut s: usize = 0;
        assert(b@.subrange(0, len as int) =~= b@);
        while len - s >= 2 && b[s] == 48 && b[s + 1] == 120
            invariant
                s <= len,
                len == b@.len(),
                strip_hex_prefix(b@) == strip_hex_prefix(b@.subrange(s as int, len as int)),
            decreases len - s,
        {
            assert(b@.subrange(s as int, len as int).subrange(2, len - s) =~= b@.subrange(s + 2, len as int));
            s = s + 2;
        }
        assert(strip_hex_prefix(b@.subrange(s as int, len as int)) == b@.subrange(s as int, len as int));
        parse_u16_from(b, s, 16)
    } else {
        assert(b@.subrange(0, len as int) =~= b@);
        parse_u16_from(b, 0, 10)
    }
}

/// Reads a command-line number: hexadecimal after a `0x` prefix, decimal
/// otherwise. The argument must be such a number (the program stops on any
/// other argument before it gets here).
pub fn convert_argument(input: &str) -> (r: u16)
    requires
        argument_value(input.spec_bytes()) is Some,
    ensures
        Some(r) == argument_value(input.spec_bytes()),
{
    match try_convert_argument(input) {
        Some(v) => v,
        None => 0,
    }
}

/// An ASCII decimal digit, '0' to '9'.
pub open spec fn is_decimal_digit(c: u8) -> bool {
    48 <= c <= 57
}

/// An ASCII hexadecimal digit: '0' to '9', 'a' to 'f' or 'A' to 'F'.
pub open spec fn is_hex_digit(c: u8) -> bool {
    (48 <= c <= 57) || (97 <= c <= 102) || (65 <= c <= 70)
}

/// The value of an ASCII decimal or hexadecimal digit.
pub open spec fn hex_digit_value(c: u8) -> int {
    if c <= 57 {
        c - 48
    } else if c >= 97 {
        c - 87
    } else {
        c - 55
    }
}

/// The number that digits written in base `base` stand for.
pub open spec fn numeral(b: Seq<u8>, base: int) -> int
    decreases b.len(),
{
    if b.len() == 0 {
        0
    } else {
        numeral(b.drop_last(), base) * base + hex_digit_value(b.last())
    }
}

proof fn lemma_digits_value_numeral(b: Seq<u8>, radix: u32)
    requires
        radix == 10 ==> forall|i: int| 0 <= i < b.len() ==> is_decimal_digit(#[trigger] b[i]),
        radix == 16 ==> forall|i: int| 0 <= i < b.len() ==> is_hex_digit(#[trigger] b[i]),
        radix == 10 || radix == 16,
    ensures
        digits_value(b, radix) == Some(numeral(b, radix as int)),
    decreases b.len(),
{
    if b.len() > 0 {
        assert(b.last() == b[b.len() - 1]);
        lemma_digits_value_numeral(b.drop_last(), radix);
    }
}

/// Every non-empty string of decimal digits reads as the number it writes
/// when that number fits in 16 bits, and is refused otherwise.
pub proof fn law_decimal_argument(b: Seq<u8>)
    requires
        b.len() >= 1,
        forall|i: int| 0 <= i < b.len() ==> is_decimal_digit(#[trigger] b[i]),
    ensures
        numeral(b, 10) <= 65535 ==> argument_value(b) == Some(numeral(b, 10) as u16),
        numeral(b, 10) > 65535 ==> argument_value(b) is None,
{
    lemma_digits_value_numeral(b, 10);
    assert(is_decimal_digit(b[0]));
    if b.len() >= 2 {
        assert(is_decimal_digit(b[1]));
    }
}

/// After "0x", every non-empty string of hexadecimal digits (in either case)
/// reads as the number it writes in base 16 when that number fits in 16
/// bits, and is refused otherwise.
pub proof fn law_hex_argument(h: Seq<u8>)
    requires
        h.len() >= 1,
        forall|i: int| 0 <= i < h.len() ==> is_hex_digit(#[trigger] h[i]),
    ensures
        numeral(h, 16) <= 65535 ==> argument_value(seq![48u8, 120u8] + h) == Some(numeral(h, 16) as u16),
        numeral(h, 16) > 65535 ==> argument_value(seq![48u8, 120u8] + h) is None,
{
    let b = seq![48u8, 120u8] + h;
    lemma_digits_value_numeral(h, 16);
    assert(b.subrange(2, b.len() as int) =~= h);
    assert(is_hex_digit(h[0]));
    if h.len() >= 2 {
        assert(is_hex_digit(h[1]));
    }
    assert(strip_hex_prefix(h) == h);
    assert(strip_hex_prefix(b) == h);
}
} // verus!
