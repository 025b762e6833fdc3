use byteorder::{BigEndian, ByteOrder, WriteBytesExt};
use vstd::prelude::*;

verus! {

/// The unsigned value of the first eight bytes of `b`, most significant first.
pub open spec fn u64_from_be(b: Seq<u8>) -> u64 {
    (b[0] as u64) << 56u64 | (b[1] as u64) << 48u64 | (b[2] as u64) << 40u64 | (b[3] as u64)
        << 32u64 | (b[4] as u64) << 24u64 | (b[5] as u64) << 16u64 | (b[6] as u64) << 8u64 | (
    b[7] as u64)
}

/// The unsigned value of the first four bytes of `b`, most significant first.
pub open spec fn u32_from_be(b: Seq<u8>) -> u32 {
    (b[0] as u32) << 24u32 | (b[1] as u32) << 16u32 | (b[2] as u32) << 8u32 | (b[3] as u32)
}

/// The signed value whose two's complement is the first eight bytes of `b`.
pub open spec fn i64_from_be(b: Seq<u8>) -> i64 {
    u64_from_be(b) as i64
}

/// The signed value whose two's complement is the first four bytes of `b`.
pub open spec fn i32_from_be(b: Seq<u8>) -> i32 {
    u32_from_be(b) as i32
}

/// The eight bytes of `v`, most significant first.
pub open spec fn u64_be_bytes(v: u64) -> Seq<u8> {
    seq![
        (v >> 56u64) as u8,
        (v >> 48u64) as u8,
        (v >> 40u64) as u8,
        (v >> 32u64) as u8,
        (v >> 24u64) as u8,
        (v >> 16u64) as u8,
        (v >> 8u64) as u8,
        v as u8,
    ]
}

/// The four bytes of `v`, most significant first.
pub open spec fn u32_be_bytes(v: u32) -> Seq<u8> {
    seq![(v >> 24u32) as u8, (v >> 16u32) as u8, (v >> 8u32) as u8, v as u8]
}

/// The eight bytes of the two's complement of `v`, most significant first.
pub open spec fn i64_be_bytes(v: i64) -> Seq<u8> {
    u64_be_bytes(v as u64)
}

/// The four bytes of the two's complement of `v`, most significant first.
pub open spec fn i32_be_bytes(v: i32) -> Seq<u8> {
    u32_be_bytes(v as u32)
}

/// Decoding the big-endian bytes of a `u64` gives the value back.
pub proof fn lemma_u64_value_roundtrip(v: u64)
    ensures
        u64_be_bytes(v).len() == 8,
        u64_from_be(u64_be_bytes(v)) == v,
{
    let b = u64_be_bytes(v);
    assert(b[0] == (v >> 56u64) as u8);
    assert(b[1] == (v >> 48u64) as u8);
    assert(b[2] == (v >> 40u64) as u8);
    assert(b[3] == (v >> 32u64) as u8);
    assert(b[4] == (v >> 24u64) as u8);
    assert(b[5] == (v >> 16u64) as u8);
    assert(b[6] == (v >> 8u64) as u8);
    assert(b[7] == v as u8);
    assert(((((v >> 56u64) as u8) as u64) << 56u64 | (((v >> 48u64) as u8) as u64) << 48u64 | (((
    v >> 40u64) as u8) as u64) << 40u64 | (((v >> 32u64) as u8) as u64) << 32u64 | (((v >> 24u64)
        as u8) as u64) << 24u64 | (((v >> 16u64) as u8) as u64) << 16u64 | (((v >> 8u64) as u8)
        as u64) << 8u64 | ((v as u8) as u64)) == v) by (bit_vector);
}

/// Encoding the big-endian value of eight bytes gives the bytes back.
pub proof fn lemma_u64_bytes_roundtrip(b: Seq<u8>)
    requires
        b.len() == 8,
    ensures
        u64_be_bytes(u64_from_be(b)) == b,
{
    let (b0, b1, b2, b3, b4, b5, b6, b7) = (b[0], b[1], b[2], b[3], b[4], b[5], b[6], b[7]);
    let x = u64_from_be(b);
    assert(x == (b0 as u64) << 56u64 | (b1 as u64) << 48u64 | (b2 as u64) << 40u64 | (b3 as u64)
        << 32u64 | (b4 as u64) << 24u64 | (b5 as u64) << 16u64 | (b6 as u64) << 8u64 | (b7 as u64));
    assert(x == (b0 as u64) << 56u64 | (b1 as u64) << 48u64 | (b2 as u64) << 40u64 | (b3 as u64)
        << 32u64 | (b4 as u64) << 24u64 | (b5 as u64) << 16u64 | (b6 as u64) << 8u64 | (b7 as u64)
        ==> (x >> 56u64) as u8 == b0 && (x >> 48u64) as u8 == b1 && (x >> 40u64) as u8 == b2 && (x
        >> 32u64) as u8 == b3 && (x >> 24u64) as u8 == b4 && (x >> 16u64) as u8 == b5 && (x
        >> 8u64) as u8 == b6 && x as u8 == b7) by (bit_vector);
    assert(u64_be_bytes(x) =~= b);
}

/// Decoding the big-endian bytes of a `u32` gives the value back.
pub proof fn lemma_u32_value_roundtrip(v: u32)
    ensures
        u32_be_bytes(v).len() == 4,
        u32_from_be(u32_be_bytes(v)) == v,
{
    let b = u32_be_bytes(v);
    assert(b[0] == (v >> 24u32) as u8);
    assert(b[1] == (v >> 16u32) as u8);
    assert(b[2] == (v >> 8u32) as u8);
    assert(b[3] == v as u8);
    assert(((((v >> 24u32) as u8) as u32) << 24u32 | (((v >> 16u32) as u8) as u32) << 16u32 | (((
    v >> 8u32) as u8) as u32) << 8u32 | ((v as u8) as u32)) == v) by (bit_vector);
}

/// Decoding the big-endian bytes of an `i64` gives the value back.
pub proof fn lemma_i64_value_roundtrip(v: i64)
    ensures
        i64_be_bytes(v).len() == 8,
        i64_from_be(i64_be_bytes(v)) == v,
{
    lemma_u64_value_roundtrip(v as u64);
    assert((v as u64) as i64 == v) by (bit_vector);
}

/// Decoding the big-endian bytes of an `i32` gives the value back.
pub proof fn lemma_i32_value_roundtrip(v: i32)
    ensures
        i32_be_bytes(v).len() == 4,
        i32_from_be(i32_be_bytes(v)) == v,
{
    lemma_u32_value_roundtrip(v as u32);
    assert((v as u32) as i32 == v) by (bit_vector);
}

/// The bytes of an `i64` and of the `u64` with the same bits are the same,
/// and so are the values read back from them.
pub proof fn lemma_i64_u64_same_bits(v: u64)
    ensures
        i64_be_bytes(v as i64) == u64_be_bytes(v),
        u64_from_be(i64_be_bytes(v as i64)) == v,
{
    assert((v as i64) as u64 == v) by (bit_vector);
    lemma_u64_value_roundtrip(v);
}

/// Four bytes read as a big-endian `u32` have the value of their base-256
/// digits, the first byte the most significant.
pub proof fn lemma_u32_from_be_value(b: Seq<u8>)
    requires
        b.len() == 4,
    ensures
        u32_from_be(b) == b[0] * 0x100_0000 + b[1] * 0x1_0000 + b[2] * 0x100 + b[3],
{
    let (b0, b1, b2, b3) = (b[0], b[1], b[2], b[3]);
    assert(((b0 as u32) << 24u32 | (b1 as u32) << 16u32 | (b2 as u32) << 8u32 | (b3 as u32))
        == b0 * 0x100_0000 + b1 * 0x1_0000 + b2 * 0x100 + b3) by (bit_vector);
}

/// Four bytes read as a big-endian `i32` are the two's complement of the
/// value: the value of their base-256 digits, less 2^32 when the top bit of
/// the first byte is set. For example, `[0, 0, 1, 0x2C]` is 300 and
/// `[0xFF, 0xFF, 0xFF, 0xFF]` is -1.
pub proof fn lemma_i32_from_be_value(b: Seq<u8>)
    requires
        b.len() == 4,
    ensures
        i32_from_be(b) == b[0] * 0x100_0000 + b[1] * 0x1_0000 + b[2] * 0x100 + b[3] - (if b[0]
            >= 0x80 {
            0x1_0000_0000int
        } else {
            0int
        }),
{
    lemma_u32_from_be_value(b);
    let x = u32_from_be(b);
    let (b0, b1, b2, b3) = (b[0], b[1], b[2], b[3]);
    assert(x == ((b0 as u32) << 24u32 | (b1 as u32) << 16u32 | (b2 as u32) << 8u32 | (
    b3 as u32)));
    assert(x >= 0x8000_0000u32 <==> b0 >= 0x80u8) by (bit_vector)
        requires
            x == ((b0 as u32) << 24u32 | (b1 as u32) << 16u32 | (b2 as u32) << 8u32 | (
            b3 as u32)),
    ;
    assert((x as i32) == (if x >= 0x8000_0000u32 {
        x - 0x1_0000_0000int
    } else {
        x as int
    })) by (bit_vector);
}

/// The four bytes of a `u32`, most significant first, are the base-256 digits
/// of its value.
pub proof fn lemma_u32_be_bytes_value(v: u32)
    ensures
        u32_be_bytes(v).len() == 4,
        u32_be_bytes(v)[0] * 0x100_0000 + u32_be_bytes(v)[1] * 0x1_0000 + u32_be_bytes(v)[2]
            * 0x100 + u32_be_bytes(v)[3] == v,
{
    lemma_u32_value_roundtrip(v);
    lemma_u32_from_be_value(u32_be_bytes(v));
}

/// The four bytes of an `i32` are the base-256 digits of its two's
/// complement: for example 300 is written `[0, 0, 1, 0x2C]`.
pub proof fn lemma_i32_be_bytes_value(v: i32)
    ensures
        i32_be_bytes(v).len() == 4,
        i32_be_bytes(v)[0] * 0x100_0000 + i32_be_bytes(v)[1] * 0x1_0000 + i32_be_bytes(v)[2]
            * 0x100 + i32_be_bytes(v)[3] == if v < 0 {
            v + 0x1_0000_0000int
        } else {
            v as int
        },
{
    lemma_u32_be_bytes_value(v as u32);
    assert((v as u32) as int == if v < 0 {
        v + 0x1_0000_0000int
    } else {
        v as int
    }) by (bit_vector);
}

/// Eight bytes read as a big-endian `u64` have the value of their base-256
/// digits, the first byte the most significant.
pub proof fn lemma_u64_from_be_value(b: Seq<u8>)
    requires
        b.len() == 8,
    ensures
        u64_from_be(b) == b[0] * 0x100_0000_0000_0000 + b[1] * 0x1_0000_0000_0000 + b[2]
            * 0x100_0000_0000 + b[3] * 0x1_0000_0000 + b[4] * 0x100_0000 + b[5] * 0x1_0000 + b[6]
            * 0x100 + b[7],
{
    let (b0, b1, b2, b3, b4, b5, b6, b7) = (b[0], b[1], b[2], b[3], b[4], b[5], b[6], b[7]);
    assert(((b0 as u64) << 56u64 | (b1 as u64) << 48u64 | (b2 as u64) << 40u64 | (b3 as u64)
        << 32u64 | (b4 as u64) << 24u64 | (b5 as u64) << 16u64 | (b6 as u64) << 8u64 | (b7 as u64))
        == b0 * 0x100_0000_0000_0000 + b1 * 0x1_0000_0000_0000 + b2 * 0x100_0000_0000 + b3
        * 0x1_0000_0000 + b4 * 0x100_0000 + b5 * 0x1_0000 + b6 * 0x100 + b7) by (bit_vector);
}

/// Eight bytes read as a big-endian `i64` are the two's complement of the
/// value: the value of their base-256 digits, less 2^64 when the top bit of
/// the first byte is set.
pub proof fn lemma_i64_from_be_value(b: Seq<u8>)
    requires
        b.len() == 8,
    ensures
        i64_from_be(b) == b[0] * 0x100_0000_0000_0000 + b[1] * 0x1_0000_0000_0000 + b[2]
            * 0x100_0000_0000 + b[3] * 0x1_0000_0000 + b[4] * 0x100_0000 + b[5] * 0x1_0000 + b[6]
            * 0x100 + b[7] - (if b[0] >= 0x80 {
            0x1_0000_0000_0000_0000int
        } else {
            0int
        }),
{
    lemma_u64_from_be_value(b);
    let x = u64_from_be(b);
    let (b0, b1, b2, b3, b4, b5, b6, b7) = (b[0], b[1], b[2], b[3], b[4], b[5], b[6], b[7]);
    assert(x >= 0x8000_0000_0000_0000u64 <==> b0 >= 0x80u8) by (bit_vector)
        requires
            x == ((b0 as u64) << 56u64 | (b1 as u64) << 48u64 | (b2 as u64) << 40u64 | (b3 as u64)
                << 32u64 | (b4 as u64) << 24u64 | (b5 as u64) << 16u64 | (b6 as u64) << 8u64 | (
            b7 as u64)),
    ;
    assert((x as i64) == (if x >= 0x8000_0000_0000_0000u64 {
        x - 0x1_0000_0000_0000_0000int
    } else {
        x as int
    })) by (bit_vector);
}

/// The eight bytes of a `u64`, most significant first, are the base-256
/// digits of its value.
pub proof fn lemma_u64_be_bytes_value(v: u64)
    ensures
        u64_be_bytes(v).len() == 8,
        u64_be_bytes(v)[0] * 0x100_0000_0000_0000 + u64_be_bytes(v)[1] * 0x1_0000_0000_0000
            + u64_be_bytes(v)[2] * 0x100_0000_0000 + u64_be_bytes(v)[3] * 0x1_0000_0000
            + u64_be_bytes(v)[4] * 0x100_0000 + u64_be_bytes(v)[5] * 0x1_0000 + u64_be_bytes(v)[6]
            * 0x100 + u64_be_bytes(v)[7] == v,
{
    lemma_u64_value_roundtrip(v);
    lemma_u64_from_be_value(u64_be_bytes(v));
}

/// The eight bytes of an `i64` are the base-256 digits of its two's
/// complement.
pub proof fn lemma_i64_be_bytes_value(v: i64)
    ensures
        i64_be_bytes(v).len() == 8,
        i64_be_bytes(v)[0] * 0x100_0000_0000_0000 + i64_be_bytes(v)[1] * 0x1_0000_0000_0000
            + i64_be_bytes(v)[2] * 0x100_0000_0000 + i64_be_bytes(v)[3] * 0x1_0000_0000
            + i64_be_bytes(v)[4] * 0x100_0000 + i64_be_bytes(v)[5] * 0x1_0000 + i64_be_bytes(v)[6]
            * 0x100 + i64_be_bytes(v)[7] == if v < 0 {
            v + 0x1_0000_0000_0000_0000int
        } else {
            v as int
        },
{
    lemma_u64_be_bytes_value(v as u64);
    assert((v as u64) as int == if v < 0 {
        v + 0x1_0000_0000_0000_0000int
    } else {
        v as int
    }) by (bit_vector);
}

/// Reads a big-endian `i64` from eight bytes with byteorder's
/// `BigEndian::read_i64`, which takes the bytes as the two's complement of the
/// value, most significant first.
#[verifier::external_body]
pub(crate) fn read_i64_be(bytes: [u8; 8]) -> (v: i64)
    ensures
        v == i64_from_be(bytes@),
{
    BigEndian::read_i64(&bytes)
}

/// Reads a big-endian `i32` from four bytes with byteorder's
/// `BigEndian::read_i32`, which takes the bytes as the two's complement of the
/// value, most significant first.
#[verifier::external_body]
pub(crate) fn read_i32_be(bytes: [u8; 4]) -> (v: i32)
    ensures
        v == i32_from_be(bytes@),
{
    BigEndian::read_i32(&bytes)
}

/// Reads a big-endian `u64` from eight bytes with std's `u64::from_be_bytes`,
/// which takes the first byte as the most significant one.
#[verifier::external_body]
pub(crate) fn u64_from_be_bytes(bytes: [u8; 8]) -> (v: u64)
    ensures
        v == u64_from_be(bytes@),
{
    u64::from_be_bytes(bytes)
}

/// Appends the big-endian bytes of `n` to `out` with byteorder's
/// `WriteBytesExt::write_i64::<BigEndian>`; writing into a `Vec<u8>` appends
/// the eight bytes and never fails.
#[verifier::external_body]
pub(crate) fn write_i64_be(out: &mut Vec<u8>, n: i64)
    ensures
        final(out)@ == old(out)@ + i64_be_bytes(n),
{
    let _ = out.write_i64::<BigEndian>(n);
}

/// Appends the big-endian bytes of `n` to `out` with byteorder's
/// `WriteBytesExt::write_i32::<BigEndian>`; writing into a `Vec<u8>` appends
/// the four bytes and never fails.
#[verifier::external_body]
pub(crate) fn write_i32_be(out: &mut Vec<u8>, n: i32)
    ensures
        final(out)@ == old(out)@ + i32_be_bytes(n),
{
    let _ = out.write_i32::<BigEndian>(n);
}

} // verus!
