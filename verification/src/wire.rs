//! The MessagePack forms that the encoder writes, as functions from values
//! to bytes, and the functions that append them to a buffer.
//!
//! All but one of the `put_*` functions hand the writing to the `rmp` crate;
//! what they promise is taken from that crate's source and not proved here.
//! Writing into a `Vec<u8>` cannot fail, so they drop the result of the call.
//! Floats are appended by verified code, from their bit pattern.

use vstd::prelude::*;
use vstd::utf8::{encode_utf8, is_ascii_chars, is_ascii_chars_encode_utf8};

verus! {

/// The two bytes of `v`, most significant first.
pub open spec fn be_bytes2(v: u16) -> Seq<u8> {
    seq![(v / 0x100) as u8, (v % 0x100) as u8]
}

/// The four bytes of `v`, most significant first.
pub open spec fn be_bytes4(v: u32) -> Seq<u8> {
    seq![
        (v / 0x100_0000) as u8,
        ((v / 0x1_0000) % 0x100) as u8,
        ((v / 0x100) % 0x100) as u8,
        (v % 0x100) as u8,
    ]
}

/// The eight bytes of `v`, most significant first.
pub open spec fn be_bytes8(v: u64) -> Seq<u8> {
    seq![
        (v / 0x100_0000_0000_0000) as u8,
        ((v / 0x1_0000_0000_0000) % 0x100) as u8,
        ((v / 0x100_0000_0000) % 0x100) as u8,
        ((v / 0x1_0000_0000) % 0x100) as u8,
        ((v / 0x100_0000) % 0x100) as u8,
        ((v / 0x1_0000) % 0x100) as u8,
        ((v / 0x100) % 0x100) as u8,
        (v % 0x100) as u8,
    ]
}

/// The unsigned 64-bit number with the same two's-complement bit pattern as `v`.
pub open spec fn twos_complement(v: i64) -> u64 {
    if v >= 0 {
        v as u64
    } else {
        (v + 0x1_0000_0000_0000_0000) as u64
    }
}

/// A length as it is carried in a header: its low 32 bits.
pub open spec fn wire_len(n: nat) -> u32 {
    (n % 0x1_0000_0000) as u32
}

/// The "absent" marker.
pub open spec fn nil_bytes() -> Seq<u8> {
    seq![0xc0u8]
}

/// A small non-negative integer, stored in the marker byte itself.
pub open spec fn pfix_bytes(v: u8) -> Seq<u8>
    recommends
        v < 128,
{
    seq![v]
}

/// An unsigned integer in its fixed nine-byte form.
pub open spec fn u64_bytes(v: u64) -> Seq<u8> {
    seq![0xcfu8] + be_bytes8(v)
}

/// A signed integer in its fixed nine-byte form.
pub open spec fn i64_bytes(v: i64) -> Seq<u8> {
    seq![0xd3u8] + be_bytes8(twos_complement(v))
}

/// A double-precision float, given by its IEEE-754 bit pattern, in its nine-byte form.
pub open spec fn f64_bits_bytes(bits: u64) -> Seq<u8> {
    seq![0xcbu8] + be_bytes8(bits)
}

/// The shortest header that announces a string of `len` bytes.
pub open spec fn str_len_bytes(len: u32) -> Seq<u8> {
    if len < 32 {
        seq![(0xa0 + len) as u8]
    } else if len < 0x100 {
        seq![0xd9u8, len as u8]
    } else if len < 0x1_0000 {
        seq![0xdau8] + be_bytes2(len as u16)
    } else {
        seq![0xdbu8] + be_bytes4(len)
    }
}

/// The shortest header that announces a sequence container of `len` elements.
pub open spec fn array_len_bytes(len: u32) -> Seq<u8> {
    if len < 16 {
        seq![(0x90 + len) as u8]
    } else if len < 0x1_0000 {
        seq![0xdcu8] + be_bytes2(len as u16)
    } else {
        seq![0xddu8] + be_bytes4(len)
    }
}

/// The shortest header that announces a key-value container of `len` entries.
pub open spec fn map_len_bytes(len: u32) -> Seq<u8> {
    if len < 16 {
        seq![(0x80 + len) as u8]
    } else if len < 0x1_0000 {
        seq![0xdeu8] + be_bytes2(len as u16)
    } else {
        seq![0xdfu8] + be_bytes4(len)
    }
}

/// A string: the header for the byte length of its UTF-8 form, then those bytes.
pub open spec fn str_bytes(s: Seq<char>) -> Seq<u8> {
    str_len_bytes(wire_len(encode_utf8(s).len())) + encode_utf8(s)
}

/// A string of fewer than 32 ASCII characters is one header byte that holds
/// its length, then one byte for each character.
pub proof fn lemma_short_ascii_str(s: Seq<char>)
    requires
        is_ascii_chars(s),
        s.len() < 32,
    ensures
        str_bytes(s) == seq![(0xa0 + s.len()) as u8] + Seq::new(s.len(), |i: int| s[i] as u8),
{
    is_ascii_chars_encode_utf8(s);
    assert(encode_utf8(s) =~= Seq::new(s.len(), |i: int| s[i] as u8));
}

/// Appends what `rmp::encode::write_nil` writes: the single byte `0xc0`.
/// Writing into a `Vec<u8>` cannot fail, so the returned `Result` is dropped.
#[verifier::external_body]
pub(crate) fn put_nil(buf: &mut Vec<u8>)
    ensures
        final(buf)@ == old(buf)@ + nil_bytes(),
{
    rmp::encode::write_nil(buf).ok();
}

/// Appends what `rmp::encode::write_pfix` writes: the value itself as one byte.
/// The outside function panics on a value above 127, which `requires` leaves out.
#[verifier::external_body]
pub(crate) fn put_pfix(buf: &mut Vec<u8>, v: u8)
    requires
        v < 128,
    ensures
        final(buf)@ == old(buf)@ + pfix_bytes(v),
{
    rmp::encode::write_pfix(buf, v).ok();
}

/// Appends what `rmp::encode::write_u64` writes: the marker `0xcf`, then the
/// value as eight big-endian bytes, however small the value is.
#[verifier::external_body]
pub(crate) fn put_u64(buf: &mut Vec<u8>, v: u64)
    ensures
        final(buf)@ == old(buf)@ + u64_bytes(v),
{
    rmp::encode::write_u64(buf, v).ok();
}

/// Appends what `rmp::encode::write_i64` writes: the marker `0xd3`, then the
/// value's two's-complement pattern as eight big-endian bytes.
#[verifier::external_body]
pub(crate) fn put_i64(buf: &mut Vec<u8>, v: i64)
    ensures
        final(buf)@ == old(buf)@ + i64_bytes(v),
{
    rmp::encode::write_i64(buf, v).ok();
}

/// Appends what `rmp::encode::write_str` writes: the shortest string header for
/// the low 32 bits of the byte length, then the string's UTF-8 bytes.
#[verifier::external_body]
pub(crate) fn put_str(buf: &mut Vec<u8>, s: &str)
    ensures
        final(buf)@ == old(buf)@ + str_bytes(s@),
{
    rmp::encode::write_str(buf, s).ok();
}

/// Appends what `rmp::encode::write_array_len` writes: one marker byte for a
/// length below 16, else the 16-bit or 32-bit marker and the length big-endian.
#[verifier::external_body]
pub(crate) fn put_array_len(buf: &mut Vec<u8>, len: u32)
    ensures
        final(buf)@ == old(buf)@ + array_len_bytes(len),
{
    rmp::encode::write_array_len(buf, len).ok();
}

/// Appends what `rmp::encode::write_map_len` writes: one marker byte for a
/// length below 16, else the 16-bit or 32-bit marker and the length big-endian.
#[verifier::external_body]
pub(crate) fn put_map_len(buf: &mut Vec<u8>, len: u32)
    ensures
        final(buf)@ == old(buf)@ + map_len_bytes(len),
{
    rmp::encode::write_map_len(buf, len).ok();
}

/// Appends a double-precision float given by its bit pattern.
pub(crate) fn put_f64_bits(buf: &mut Vec<u8>, bits: u64)
    ensures
        final(buf)@ == old(buf)@ + f64_bits_bytes(bits),
{
    buf.push(0xcbu8);
    buf.push((bits / 0x100_0000_0000_0000) as u8);
    buf.push(((bits / 0x1_0000_0000_0000) % 0x100) as u8);
    buf.push(((bits / 0x100_0000_0000) % 0x100) as u8);
    buf.push(((bits / 0x1_0000_0000) % 0x100) as u8);
    buf.push(((bits / 0x100_0000) % 0x100) as u8);
    buf.push(((bits / 0x1_0000) % 0x100) as u8);
    buf.push(((bits / 0x100) % 0x100) as u8);
    buf.push((bits % 0x100) as u8);
    assert(buf@ =~= old(buf)@ + f64_bits_bytes(bits));
}

/// The low 32 bits of a length, as the headers carry it.
pub(crate) fn low32(n: usize) -> (r: u32)
    ensures
        r == wire_len(n as nat),
{
    ((n as u64) % 0x1_0000_0000u64) as u32
}

} // verus!
