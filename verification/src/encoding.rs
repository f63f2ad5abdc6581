//! The canonical byte encoding of group elements: eight big-endian bytes,
//! produced by spelling the value in hexadecimal and decoding the digit
//! string, and consumed again by recombining the bytes.

use vstd::prelude::*;

verus! {

/// The `j`-th hexadecimal digit (most significant first) of `v`.
pub open spec fn nib(v: u64, j: int) -> u8 {
    ((v >> ((60 - 4 * j) as u64)) & 0xf) as u8
}

/// The ASCII digit spelling a value below sixteen, lower case.
pub open spec fn hex_char(n: u8) -> u8 {
    if n < 10 {
        (48 + n) as u8
    } else {
        (87 + n) as u8
    }
}

/// The value a hexadecimal digit spells, as `hex` reads it.
pub open spec fn hex_val(c: u8) -> u8 {
    if 48 <= c <= 57 {
        (c - 48) as u8
    } else if 97 <= c <= 102 {
        (c - 87) as u8
    } else if 65 <= c <= 70 {
        (c - 55) as u8
    } else {
        0
    }
}

pub open spec fn is_hex_digit(c: u8) -> bool {
    (48 <= c <= 57) || (97 <= c <= 102) || (65 <= c <= 70)
}

/// The `i`-th byte (most significant first) of `v`.
pub open spec fn u64_be_byte(v: u64, i: int) -> u8 {
    ((v >> ((56 - 8 * i) as u64)) & 0xff) as u8
}

/// All eight bytes of `v`, most significant first.
pub open spec fn u64_be_bytes(v: u64) -> Seq<u8> {
    Seq::new(8, |i: int| u64_be_byte(v, i))
}

/// The value eight big-endian bytes recombine to.
pub open spec fn be_u64_of(s: Seq<u8>) -> u64 {
    ((s[0] as u64) << 56) | ((s[1] as u64) << 48) | ((s[2] as u64) << 40) | ((s[3] as u64) << 32)
        | ((s[4] as u64) << 24) | ((s[5] as u64) << 16) | ((s[6] as u64) << 8) | (s[7] as u64)
}

/// A digit below sixteen survives the round trip through its ASCII spelling.
proof fn lemma_hex_char_val(n: u8)
    requires
        n < 16,
    ensures
        is_hex_digit(hex_char(n)),
        hex_val(hex_char(n)) == n,
{
}

/// The hexadecimal digits of `v`, as ASCII, most significant first.
fn to_hex16(v: u64) -> (r: Vec<u8>)
    ensures
        r@.len() == 16,
        forall|j: int| 0 <= j < 16 ==> r@[j] == hex_char(nib(v, j)),
{
    let mut out: Vec<u8> = Vec::new();
    let mut j: usize = 0;
    while j < 16
        invariant
            j <= 16,
            out@.len() == j,
            forall|k: int| 0 <= k < j ==> out@[k] == hex_char(nib(v, k)),
        decreases 16 - j,
    {
        let shift: u64 = 60 - 4 * (j as u64);
        proof {
            assert((v >> shift) & 0xf <= 0xf) by (bit_vector);
        }
        let n: u8 = ((v >> shift) & 0xf) as u8;
        let c: u8 = if n < 10 {
            48 + n
        } else {
            87 + n
        };
        proof {
            assert(nib(v, j as int) == n);
            assert(c == hex_char(nib(v, j as int)));
        }
        out.push(c);
        j = j + 1;
    }
    out
}

/// Relies on hex::decode: a byte string of hexadecimal digits of even length
/// decodes to exactly the bytes it spells, two digits per byte, the first
/// digit of each pair most significant.
#[verifier::external_body]
fn hex_decode_digits(data: &Vec<u8>) -> (r: Vec<u8>)
    requires
        data@.len() % 2 == 0,
        forall|j: int| 0 <= j < data@.len() ==> is_hex_digit(data@[j]),
    ensures
        r@.len() == data@.len() / 2,
        forall|i: int|
            0 <= i < r@.len() ==> r@[i] == 16 * hex_val(data@[2 * i]) + hex_val(
                data@[2 * i + 1],
            ),
{
    hex::decode(data).unwrap()
}

/// Two adjacent hexadecimal digits of `v` recombine to one of its bytes.
proof fn lemma_nib_pair(v: u64, i: int)
    requires
        0 <= i < 8,
    ensures
        16 * (nib(v, 2 * i) as int) + (nib(v, 2 * i + 1) as int) == u64_be_byte(v, i) as int,
{
    if i == 0 {
        assert(16 * ((v >> 60) & 0xf) + ((v >> 56) & 0xf) == ((v >> 56) & 0xff)) by (bit_vector);
        assert((v >> 60) & 0xf <= 15 && (v >> 56) & 0xf <= 15 && (v >> 56) & 0xff <= 255)
            by (bit_vector);
    } else if i == 1 {
        assert(16 * ((v >> 52) & 0xf) + ((v >> 48) & 0xf) == ((v >> 48) & 0xff)) by (bit_vector);
        assert((v >> 52) & 0xf <= 15 && (v >> 48) & 0xf <= 15 && (v >> 48) & 0xff <= 255)
            by (bit_vector);
    } else if i == 2 {
        assert(16 * ((v >> 44) & 0xf) + ((v >> 40) & 0xf) == ((v >> 40) & 0xff)) by (bit_vector);
        assert((v >> 44) & 0xf <= 15 && (v >> 40) & 0xf <= 15 && (v >> 40) & 0xff <= 255)
            by (bit_vector);
    } else if i == 3 {
        assert(16 * ((v >> 36) & 0xf) + ((v >> 32) & 0xf) == ((v >> 32) & 0xff)) by (bit_vector);
        assert((v >> 36) & 0xf <= 15 && (v >> 32) & 0xf <= 15 && (v >> 32) & 0xff <= 255)
            by (bit_vector);
    } else if i == 4 {
        assert(16 * ((v >> 28) & 0xf) + ((v >> 24) & 0xf) == ((v >> 24) & 0xff)) by (bit_vector);
        assert((v >> 28) & 0xf <= 15 && (v >> 24) & 0xf <= 15 && (v >> 24) & 0xff <= 255)
            by (bit_vector);
    } else if i == 5 {
        assert(16 * ((v >> 20) & 0xf) + ((v >> 16) & 0xf) == ((v >> 16) & 0xff)) by (bit_vector);
        assert((v >> 20) & 0xf <= 15 && (v >> 16) & 0xf <= 15 && (v >> 16) & 0xff <= 255)
            by (bit_vector);
    } else if i == 6 {
        assert(16 * ((v >> 12) & 0xf) + ((v >> 8) & 0xf) == ((v >> 8) & 0xff)) by (bit_vector);
        assert((v >> 12) & 0xf <= 15 && (v >> 8) & 0xf <= 15 && (v >> 8) & 0xff <= 255)
            by (bit_vector);
    } else {
        assert(16 * ((v >> 4) & 0xf) + ((v >> 0) & 0xf) == ((v >> 0) & 0xff)) by (bit_vector);
        assert((v >> 4) & 0xf <= 15 && (v >> 0) & 0xf <= 15 && (v >> 0) & 0xff <= 255)
            by (bit_vector);
    }
}

/// The canonical encoding: eight big-endian bytes, produced through the
/// hexadecimal spelling of the value.
pub fn value_to_be_bytes(v: u64) -> (r: Vec<u8>)
    ensures
        r@ == u64_be_bytes(v),
{
    let hx = to_hex16(v);
    proof {
        assert forall|j: int| 0 <= j < hx@.len() implies is_hex_digit(hx@[j]) by {
            assert(hx@[j] == hex_char(nib(v, j)));
            assert(nib(v, j) < 16) by {
                let sh = (60 - 4 * j) as u64;
                assert((v >> sh) & 0xf <= 0xf) by (bit_vector);
            }
            lemma_hex_char_val(nib(v, j));
        }
    }
    let bytes = hex_decode_digits(&hx);
    proof {
        assert forall|i: int| 0 <= i < 8 implies bytes@[i] == u64_be_byte(v, i) by {
            assert(nib(v, 2 * i) < 16 && nib(v, 2 * i + 1) < 16) by {
                let sh1 = (60 - 4 * (2 * i)) as u64;
                let sh2 = (60 - 4 * (2 * i + 1)) as u64;
                assert((v >> sh1) & 0xf <= 0xf) by (bit_vector);
                assert((v >> sh2) & 0xf <= 0xf) by (bit_vector);
            }
            lemma_hex_char_val(nib(v, 2 * i));
            lemma_hex_char_val(nib(v, 2 * i + 1));
            assert(bytes@[i] == 16 * hex_val(hx@[2 * i]) + hex_val(hx@[2 * i + 1]));
            lemma_nib_pair(v, i);
        }
        assert(bytes@ =~= u64_be_bytes(v));
    }
    bytes
}

/// Recombining the eight bytes of the canonical encoding restores the value.
pub proof fn lemma_be_roundtrip(v: u64)
    ensures
        be_u64_of(u64_be_bytes(v)) == v,
{
    let b0 = u64_be_byte(v, 0);
    let b1 = u64_be_byte(v, 1);
    let b2 = u64_be_byte(v, 2);
    let b3 = u64_be_byte(v, 3);
    let b4 = u64_be_byte(v, 4);
    let b5 = u64_be_byte(v, 5);
    let b6 = u64_be_byte(v, 6);
    let b7 = u64_be_byte(v, 7);
    assert(((b0 as u64) << 56) | ((b1 as u64) << 48) | ((b2 as u64) << 40) | ((b3 as u64) << 32)
        | ((b4 as u64) << 24) | ((b5 as u64) << 16) | ((b6 as u64) << 8) | (b7 as u64) == v)
        by (bit_vector)
        requires
            b0 == ((v >> 56) & 0xff) as u8,
            b1 == ((v >> 48) & 0xff) as u8,
            b2 == ((v >> 40) & 0xff) as u8,
            b3 == ((v >> 32) & 0xff) as u8,
            b4 == ((v >> 24) & 0xff) as u8,
            b5 == ((v >> 16) & 0xff) as u8,
            b6 == ((v >> 8) & 0xff) as u8,
            b7 == ((v >> 0) & 0xff) as u8,
    ;
}

/// Recombine the first eight big-endian bytes into the value they encode.
pub fn be_bytes_to_value(bytes: &[u8]) -> (r: u64)
    requires
        bytes@.len() >= 8,
    ensures
        r == be_u64_of(bytes@),
{
    ((bytes[0] as u64) << 56) | ((bytes[1] as u64) << 48) | ((bytes[2] as u64) << 40) | ((
    bytes[3] as u64) << 32) | ((bytes[4] as u64) << 24) | ((bytes[5] as u64) << 16) | ((
    bytes[6] as u64) << 8) | (bytes[7] as u64)
}

} // verus!
