//! Little-endian framing of integers into a byte buffer.
use byteorder::{LittleEndian, WriteBytesExt};
use vstd::prelude::*;

verus! {

/// The four bytes of `v`, least significant first.
pub open spec fn le_u32(v: u32) -> Seq<u8> {
    seq![
        (v as int % 256) as u8,
        ((v as int / 256) % 256) as u8,
        ((v as int / 65536) % 256) as u8,
        ((v as int / 16777216) % 256) as u8,
    ]
}

/// The eight bytes of `v`, least significant first.
pub open spec fn le_u64(v: u64) -> Seq<u8> {
    le_u32((v as int % 0x1_0000_0000) as u32) + le_u32((v as int / 0x1_0000_0000) as u32)
}

/// The four bytes of `v` in two's complement, least significant first.
pub open spec fn le_i32(v: i32) -> Seq<u8> {
    le_u32(
        (if v >= 0 {
            v as int
        } else {
            v as int + 0x1_0000_0000
        }) as u32,
    )
}

/// `WriteBytesExt::write_u32::<LittleEndian>` on a `Vec<u8>`: appends the
/// four bytes of `v`, least significant first. Writing to a `Vec` cannot fail.
#[verifier::external_body]
pub(crate) fn put_u32(buf: &mut Vec<u8>, v: u32)
    ensures
        final(buf)@ == old(buf)@ + le_u32(v),
{
    let _ = buf.write_u32::<LittleEndian>(v);
}

/// `WriteBytesExt::write_u64::<LittleEndian>` on a `Vec<u8>`: appends the
/// eight bytes of `v`, least significant first.
#[verifier::external_body]
pub(crate) fn put_u64(buf: &mut Vec<u8>, v: u64)
    ensures
        final(buf)@ == old(buf)@ + le_u64(v),
{
    let _ = buf.write_u64::<LittleEndian>(v);
}

/// `WriteBytesExt::write_i32::<LittleEndian>` on a `Vec<u8>`: appends the
/// four bytes of `v` in two's complement, least significant first.
#[verifier::external_body]
pub(crate) fn put_i32(buf: &mut Vec<u8>, v: i32)
    ensures
        final(buf)@ == old(buf)@ + le_i32(v),
{
    let _ = buf.write_i32::<LittleEndian>(v);
}

} // verus!
