//! Integers in network byte order: what the bytes of a number are, and
//! the reading and writing of them.

use byteorder::ByteOrder;
use byteorder::NetworkEndian;
use vstd::prelude::*;
use vstd::slice::slice_subrange;

verus! {

/// The number that two bytes spell, most significant byte first.
pub open spec fn be_value_2(s: Seq<u8>) -> int
    recommends
        s.len() == 2,
{
    s[0] as int * 0x100 + s[1] as int
}

/// The number that four bytes spell, most significant byte first.
pub open spec fn be_value_4(s: Seq<u8>) -> int
    recommends
        s.len() == 4,
{
    s[0] as int * 0x100_0000 + s[1] as int * 0x1_0000 + s[2] as int * 0x100 + s[3] as int
}

/// The number that eight bytes spell, most significant byte first.
pub open spec fn be_value_8(s: Seq<u8>) -> int
    recommends
        s.len() == 8,
{
    be_value_4(s.subrange(0, 4)) * 0x1_0000_0000 + be_value_4(s.subrange(4, 8))
}

/// The two bytes that spell `v`, for `0 <= v < 2^16`.
pub open spec fn be_bytes_2(v: int) -> Seq<u8> {
    seq![(v / 0x100 % 0x100) as u8, (v % 0x100) as u8]
}

/// The four bytes that spell `v`, for `0 <= v < 2^32`.
pub open spec fn be_bytes_4(v: int) -> Seq<u8> {
    seq![
        (v / 0x100_0000 % 0x100) as u8,
        (v / 0x1_0000 % 0x100) as u8,
        (v / 0x100 % 0x100) as u8,
        (v % 0x100) as u8,
    ]
}

/// The eight bytes that spell `v`, for `0 <= v < 2^64`.
pub open spec fn be_bytes_8(v: int) -> Seq<u8> {
    be_bytes_4(v / 0x1_0000_0000) + be_bytes_4(v % 0x1_0000_0000)
}

/// The unsigned number with the same 32 bits as `v` in two's complement.
pub open spec fn unsigned_32(v: i32) -> int {
    if v < 0 {
        v + 0x1_0000_0000
    } else {
        v as int
    }
}

/// The signed number with the same 32 bits as `u`, for `0 <= u < 2^32`.
pub open spec fn signed_32(u: int) -> i32 {
    if u >= 0x8000_0000 {
        (u - 0x1_0000_0000) as i32
    } else {
        u as i32
    }
}

/// The unsigned number with the same 64 bits as `v` in two's complement.
pub open spec fn unsigned_64(v: i64) -> int {
    if v < 0 {
        v + 0x1_0000_0000_0000_0000
    } else {
        v as int
    }
}

/// The signed number with the same 64 bits as `u`, for `0 <= u < 2^64`.
pub open spec fn signed_64(u: int) -> i64 {
    if u >= 0x8000_0000_0000_0000 {
        (u - 0x1_0000_0000_0000_0000) as i64
    } else {
        u as i64
    }
}

/// Network byte order encoding of a `u16`.
#[verifier::opaque]
pub open spec fn spec_u16_to_be(v: u16) -> Seq<u8> {
    be_bytes_2(v as int)
}

/// The `u16` that two bytes in network byte order hold.
#[verifier::opaque]
pub open spec fn spec_u16_from_be(s: Seq<u8>) -> u16
    recommends
        s.len() == 2,
{
    be_value_2(s) as u16
}

/// Network byte order encoding of an `i32`, in two's complement.
#[verifier::opaque]
pub open spec fn spec_i32_to_be(v: i32) -> Seq<u8> {
    be_bytes_4(unsigned_32(v))
}

/// The `i32` that four bytes in network byte order hold.
#[verifier::opaque]
pub open spec fn spec_i32_from_be(s: Seq<u8>) -> i32
    recommends
        s.len() == 4,
{
    signed_32(be_value_4(s))
}

/// Network byte order encoding of an `i64`, in two's complement.
#[verifier::opaque]
pub open spec fn spec_i64_to_be(v: i64) -> Seq<u8> {
    be_bytes_8(unsigned_64(v))
}

/// The `i64` that eight bytes in network byte order hold.
#[verifier::opaque]
pub open spec fn spec_i64_from_be(s: Seq<u8>) -> i64
    recommends
        s.len() == 8,
{
    signed_64(be_value_8(s))
}

/// Reading the encoding of a `u16` gives the number back.
pub proof fn lemma_u16_round_trip(v: u16)
    ensures
        spec_u16_to_be(v).len() == 2,
        spec_u16_from_be(spec_u16_to_be(v)) == v,
{
    reveal(spec_u16_to_be);
    reveal(spec_u16_from_be);
}

proof fn lemma_be_4_round_trip(u: int)
    requires
        0 <= u < 0x1_0000_0000,
    ensures
        be_bytes_4(u).len() == 4,
        be_value_4(be_bytes_4(u)) == u,
{
    let b0 = u / 0x100_0000;
    let r0 = u % 0x100_0000;
    let b1 = r0 / 0x1_0000;
    let r1 = r0 % 0x1_0000;
    let b2 = r1 / 0x100;
    let b3 = r1 % 0x100;
    assert(u == b0 * 0x100_0000 + b1 * 0x1_0000 + b2 * 0x100 + b3);
    assert(0 <= b0 < 0x100);
    vstd::arithmetic::div_mod::lemma_fundamental_div_mod_converse(
        u,
        0x1_0000,
        b0 * 0x100 + b1,
        r1,
    );
    vstd::arithmetic::div_mod::lemma_fundamental_div_mod_converse(
        u,
        0x100,
        b0 * 0x1_0000 + b1 * 0x100 + b2,
        b3,
    );
    vstd::arithmetic::div_mod::lemma_fundamental_div_mod_converse(b0 * 0x100 + b1, 0x100, b0, b1);
    vstd::arithmetic::div_mod::lemma_fundamental_div_mod_converse(
        b0 * 0x1_0000 + b1 * 0x100 + b2,
        0x100,
        b0 * 0x100 + b1,
        b2,
    );
    vstd::arithmetic::div_mod::lemma_fundamental_div_mod_converse(b0, 0x100, 0, b0);
    let s = be_bytes_4(u);
    assert(s[0] == b0);
    assert(s[1] == b1);
    assert(s[2] == b2);
    assert(s[3] == b3);
}

/// Reading the encoding of an `i32` gives the number back.
pub proof fn lemma_i32_round_trip(v: i32)
    ensures
        spec_i32_to_be(v).len() == 4,
        spec_i32_from_be(spec_i32_to_be(v)) == v,
{
    reveal(spec_i32_to_be);
    reveal(spec_i32_from_be);
    lemma_be_4_round_trip(unsigned_32(v));
}

/// Reading the encoding of an `i64` gives the number back.
pub proof fn lemma_i64_round_trip(v: i64)
    ensures
        spec_i64_to_be(v).len() == 8,
        spec_i64_from_be(spec_i64_to_be(v)) == v,
{
    reveal(spec_i64_to_be);
    reveal(spec_i64_from_be);
    let u = unsigned_64(v);
    let hi = u / 0x1_0000_0000;
    let lo = u % 0x1_0000_0000;
    lemma_be_4_round_trip(hi);
    lemma_be_4_round_trip(lo);
    let s = be_bytes_8(u);
    assert(s.subrange(0, 4) =~= be_bytes_4(hi));
    assert(s.subrange(4, 8) =~= be_bytes_4(lo));
}

/// `ByteOrder::read_u16` of byteorder's `NetworkEndian`: the first two
/// bytes of the slice, read most significant byte first. It panics on a
/// slice of fewer than two bytes.
#[verifier::external_body]
fn read_u16_be(bytes: &[u8]) -> (value: u16)
    requires
        bytes@.len() >= 2,
    ensures
        value == spec_u16_from_be(bytes@.subrange(0, 2)),
{
    NetworkEndian::read_u16(bytes)
}

/// `ByteOrder::read_i32` of byteorder's `NetworkEndian`: the first four
/// bytes of the slice, read most significant byte first as a two's
/// complement number. It panics on a slice of fewer than four bytes.
#[verifier::external_body]
fn read_i32_be(bytes: &[u8]) -> (value: i32)
    requires
        bytes@.len() >= 4,
    ensures
        value == spec_i32_from_be(bytes@.subrange(0, 4)),
{
    NetworkEndian::read_i32(bytes)
}

/// `ByteOrder::read_i64` of byteorder's `NetworkEndian`: the first eight
/// bytes of the slice, read most significant byte first as a two's
/// complement number. It panics on a slice of fewer than eight bytes.
#[verifier::external_body]
fn read_i64_be(bytes: &[u8]) -> (value: i64)
    requires
        bytes@.len() >= 8,
    ensures
        value == spec_i64_from_be(bytes@.subrange(0, 8)),
{
    NetworkEndian::read_i64(bytes)
}

/// `ByteOrder::write_u16` of byteorder's `NetworkEndian`, on a buffer of
/// two bytes: both are overwritten with the number, most significant
/// byte first.
#[verifier::external_body]
fn u16_to_be(value: u16) -> (bytes: [u8; 2])
    ensures
        bytes@ == spec_u16_to_be(value),
{
    let mut bytes = [0u8; 2];
    NetworkEndian::write_u16(&mut bytes, value);
    bytes
}

/// `ByteOrder::write_i32` of byteorder's `NetworkEndian`, on a buffer of
/// four bytes: all are overwritten with the two's complement form of the
/// number, most significant byte first.
#[verifier::external_body]
fn i32_to_be(value: i32) -> (bytes: [u8; 4])
    ensures
        bytes@ == spec_i32_to_be(value),
{
    let mut bytes = [0u8; 4];
    NetworkEndian::write_i32(&mut bytes, value);
    bytes
}

/// `ByteOrder::write_i64` of byteorder's `NetworkEndian`, on a buffer of
/// eight bytes: all are overwritten with the two's complement form of
/// the number, most significant byte first.
#[verifier::external_body]
fn i64_to_be(value: i64) -> (bytes: [u8; 8])
    ensures
        bytes@ == spec_i64_to_be(value),
{
    let mut bytes = [0u8; 8];
    NetworkEndian::write_i64(&mut bytes, value);
    bytes
}

/// Appends the network byte order encoding of `value`.
pub fn put_u16(buffer: &mut Vec<u8>, value: u16)
    ensures
        final(buffer)@ == old(buffer)@ + spec_u16_to_be(value),
{
    let bytes = u16_to_be(value);
    buffer.extend_from_slice(bytes.as_slice());
}

/// Appends the network byte order encoding of `value`.
pub fn put_i32(buffer: &mut Vec<u8>, value: i32)
    ensures
        final(buffer)@ == old(buffer)@ + spec_i32_to_be(value),
{
    let bytes = i32_to_be(value);
    buffer.extend_from_slice(bytes.as_slice());
}

/// Appends the network byte order encoding of `value`.
pub fn put_i64(buffer: &mut Vec<u8>, value: i64)
    ensures
        final(buffer)@ == old(buffer)@ + spec_i64_to_be(value),
{
    let bytes = i64_to_be(value);
    buffer.extend_from_slice(bytes.as_slice());
}

/// Reads the `u16` that starts at `at`.
pub fn get_u16(bytes: &[u8], at: usize) -> (value: u16)
    requires
        at + 2 <= bytes@.len(),
    ensures
        value == spec_u16_from_be(bytes@.subrange(at as int, at + 2)),
{
    let len = bytes.len();
    assert(at + 2 <= len);
    let part = slice_subrange(bytes, at, at + 2);
    assert(part@.subrange(0, 2) =~= part@);
    read_u16_be(part)
}

/// Reads the `i32` that starts at `at`.
pub fn get_i32(bytes: &[u8], at: usize) -> (value: i32)
    requires
        at + 4 <= bytes@.len(),
    ensures
        value == spec_i32_from_be(bytes@.subrange(at as int, at + 4)),
{
    let len = bytes.len();
    assert(at + 4 <= len);
    let part = slice_subrange(bytes, at, at + 4);
    assert(part@.subrange(0, 4) =~= part@);
    read_i32_be(part)
}

/// Reads the `i64` that starts at `at`.
pub fn get_i64(bytes: &[u8], at: usize) -> (value: i64)
    requires
        at + 8 <= bytes@.len(),
    ensures
        value == spec_i64_from_be(bytes@.subrange(at as int, at + 8)),
{
    let len = bytes.len();
    assert(at + 8 <= len);
    let part = slice_subrange(bytes, at, at + 8);
    assert(part@.subrange(0, 8) =~= part@);
    read_i64_be(part)
}

/// Copies the `N` bytes that start at `at`.
pub fn get_array<const N: usize>(bytes: &[u8], at: usize) -> (array: [u8; N])
    requires
        at + N <= bytes@.len(),
    ensures
        array@ == bytes@.subrange(at as int, at + N),
{
    let len = bytes.len();
    let mut array = [0u8; N];
    let mut i: usize = 0;
    while i < N
        invariant
            i <= N,
            len == bytes@.len(),
            at + N <= len,
            array@.len() == N,
            forall|j: int| 0 <= j < i ==> array@[j] == bytes@[at + j],
        decreases N - i,
    {
        array[i] = bytes[at + i];
        i = i + 1;
    }
    assert(array@ =~= bytes@.subrange(at as int, at + N));
    array
}

} // verus!
