//! The packet codec: a 16-byte header (index, send time), both little-endian,
//! at the start of every datagram.

use vstd::prelude::*;

use crate::errors::AppError;

verus! {

/// Number of bytes of the packet header on the wire.
pub const PACKET_HEAD_SIZE: usize = 16;

/// The header carried at the start of every packet.
#[derive(Debug, Clone, Copy, PartialEq, Eq, Structural)]
pub struct PacketHeader {
    /// Index assigned by the transmitter.
    pub index: u64,
    /// Time value at which the packet was sent.
    pub send_time: u64,
}

/// The eight little-endian bytes of `v`.
pub open spec fn u64_le_bytes(v: u64) -> Seq<u8> {
    seq![
        v as u8,
        (v >> 8u64) as u8,
        (v >> 16u64) as u8,
        (v >> 24u64) as u8,
        (v >> 32u64) as u8,
        (v >> 40u64) as u8,
        (v >> 48u64) as u8,
        (v >> 56u64) as u8,
    ]
}

/// The little-endian `u64` held by the eight bytes `b[off..off + 8]`.
pub open spec fn le_u64_at(b: Seq<u8>, off: int) -> u64 {
    (b[off] as u64) | ((b[off + 1] as u64) << 8u64) | ((b[off + 2] as u64) << 16u64) | ((b[off
        + 3] as u64) << 24u64) | ((b[off + 4] as u64) << 32u64) | ((b[off + 5] as u64) << 40u64)
        | ((b[off + 6] as u64) << 48u64) | ((b[off + 7] as u64) << 56u64)
}

/// The sixteen bytes of a header on the wire.
pub open spec fn header_bytes(index: u64, send_time: u64) -> Seq<u8> {
    u64_le_bytes(index) + u64_le_bytes(send_time)
}

/// The header that a buffer of at least sixteen bytes carries.
pub open spec fn header_of(b: Seq<u8>) -> PacketHeader {
    PacketHeader { index: le_u64_at(b, 0), send_time: le_u64_at(b, 8) }
}

/// Reading back the bytes of a value gives the value.
pub proof fn lemma_le_bytes_round_trip(v: u64)
    ensures
        le_u64_at(u64_le_bytes(v), 0) == v,
{
    let b = u64_le_bytes(v);
    let (b0, b1, b2, b3, b4, b5, b6, b7) = (b[0], b[1], b[2], b[3], b[4], b[5], b[6], b[7]);
    assert(b0 == v as u8 && b1 == (v >> 8u64) as u8 && b2 == (v >> 16u64) as u8 && b3 == (v
        >> 24u64) as u8 && b4 == (v >> 32u64) as u8 && b5 == (v >> 40u64) as u8 && b6 == (v
        >> 48u64) as u8 && b7 == (v >> 56u64) as u8);
    assert(((v as u8) as u64) | ((((v >> 8u64) as u8) as u64) << 8u64) | ((((v >> 16u64) as u8)
        as u64) << 16u64) | ((((v >> 24u64) as u8) as u64) << 24u64) | ((((v >> 32u64) as u8)
        as u64) << 32u64) | ((((v >> 40u64) as u8) as u64) << 40u64) | ((((v >> 48u64) as u8)
        as u64) << 48u64) | ((((v >> 56u64) as u8) as u64) << 56u64) == v) by (bit_vector);
}

/// Reads the little-endian `u64` at `b[off..off + 8]`.
fn read_u64_le(b: &[u8], off: usize) -> (r: u64)
    requires
        off + 8 <= b@.len(),
    ensures
        r == le_u64_at(b@, off as int),
{
    (b[off] as u64) | ((b[off + 1] as u64) << 8u64) | ((b[off + 2] as u64) << 16u64) | ((b[off
        + 3] as u64) << 24u64) | ((b[off + 4] as u64) << 32u64) | ((b[off + 5] as u64) << 40u64)
        | ((b[off + 6] as u64) << 48u64) | ((b[off + 7] as u64) << 56u64)
}

/// Writes `v` little-endian into `b[off..off + 8]`, leaving the other bytes alone.
fn write_u64_le(b: &mut [u8], off: usize, v: u64)
    requires
        off + 8 <= old(b)@.len(),
    ensures
        final(b)@.len() == old(b)@.len(),
        final(b)@.subrange(off as int, off + 8) == u64_le_bytes(v),
        forall|k: int|
            0 <= k < old(b)@.len() && !(off <= k < off + 8) ==> #[trigger] final(b)@[k] == old(b)@[k],
{
    b[off] = v as u8;
    b[off + 1] = (v >> 8u64) as u8;
    b[off + 2] = (v >> 16u64) as u8;
    b[off + 3] = (v >> 24u64) as u8;
    b[off + 4] = (v >> 32u64) as u8;
    b[off + 5] = (v >> 40u64) as u8;
    b[off + 6] = (v >> 48u64) as u8;
    b[off + 7] = (v >> 56u64) as u8;
    assert(b@.subrange(off as int, off + 8) =~= u64_le_bytes(v));
}

/// Writes the header `(index, send_time)` at `buf[off..off + 16]`, leaving the
/// other bytes alone.
pub fn write_header_at(buf: &mut [u8], off: usize, index: u64, send_time: u64)
    requires
        off + PACKET_HEAD_SIZE <= old(buf)@.len(),
    ensures
        final(buf)@.len() == old(buf)@.len(),
        final(buf)@.subrange(off as int, off + PACKET_HEAD_SIZE) == header_bytes(index, send_time),
        forall|k: int|
            0 <= k < old(buf)@.len() && !(off <= k < off + PACKET_HEAD_SIZE)
                ==> #[trigger] final(buf)@[k] == old(buf)@[k],
{
    let len = buf.len();
    assert(off + 8 < len);
    write_u64_le(buf, off, index);
    let ghost b1 = buf@;
    write_u64_le(buf, off + 8, send_time);
    assert(buf@.subrange(off as int, off + 8) =~= b1.subrange(off as int, off + 8));
    assert(buf@.subrange(off as int, off + PACKET_HEAD_SIZE) =~= header_bytes(index, send_time));
}

/// Writes the header `(index, send_time)` at the start of `buf`; the bytes after
/// the header are left as the caller wrote them. `seed` does not change the bytes.
pub fn write_packet(seed: u64, index: u64, send_time: u64, buf: &mut [u8])
    requires
        old(buf)@.len() >= PACKET_HEAD_SIZE,
    ensures
        final(buf)@.len() == old(buf)@.len(),
        final(buf)@.subrange(0, PACKET_HEAD_SIZE as int) == header_bytes(index, send_time),
        final(buf)@.subrange(PACKET_HEAD_SIZE as int, old(buf)@.len() as int) == old(buf)@.subrange(
            PACKET_HEAD_SIZE as int,
            old(buf)@.len() as int,
        ),
{
    let ghost b0 = buf@;
    write_header_at(buf, 0, index, send_time);
    assert(buf@.subrange(PACKET_HEAD_SIZE as int, b0.len() as int) =~= b0.subrange(
        PACKET_HEAD_SIZE as int,
        b0.len() as int,
    ));
}

/// Decodes the header at the start of `buf`, or fails with `MalformedPacket` when
/// `buf` is shorter than a header. The payload is not inspected.
pub fn parse_packet(seed: u64, buf: &[u8]) -> (r: Result<PacketHeader, AppError>)
    ensures
        buf@.len() >= PACKET_HEAD_SIZE ==> r == Ok::<PacketHeader, AppError>(header_of(buf@)),
        buf@.len() < PACKET_HEAD_SIZE ==> r matches Err(AppError::MalformedPacket),
{
    if buf.len() < PACKET_HEAD_SIZE {
        return Err(AppError::MalformedPacket);
    }
    Ok(PacketHeader { index: read_u64_le(buf, 0), send_time: read_u64_le(buf, 8) })
}

/// Decoding what was written gives back the written header, whatever the seed,
/// the buffer and the bytes it held before.
pub proof fn lemma_write_parse_round_trip(before: Seq<u8>, after: Seq<u8>, index: u64, send_time: u64)
    requires
        before.len() >= PACKET_HEAD_SIZE,
        after.len() == before.len(),
        after.subrange(0, PACKET_HEAD_SIZE as int) == header_bytes(index, send_time),
    ensures
        header_of(after) == (PacketHeader { index, send_time }),
{
    let h = after.subrange(0, PACKET_HEAD_SIZE as int);
    lemma_le_bytes_round_trip(index);
    lemma_le_bytes_round_trip(send_time);
    let lo = u64_le_bytes(index);
    let hi = u64_le_bytes(send_time);
    assert forall|k: int| 0 <= k < 8 implies after[k] == lo[k] && after[8 + k] == hi[k] by {
        assert(after[k] == h[k]);
        assert(after[8 + k] == h[8 + k]);
    }
}

/// Two headers that encode to the same bytes are equal: the encoding is one to one.
pub proof fn lemma_header_bytes_injective(i1: u64, t1: u64, i2: u64, t2: u64)
    requires
        header_bytes(i1, t1) == header_bytes(i2, t2),
    ensures
        i1 == i2 && t1 == t2,
{
    let b1 = header_bytes(i1, t1);
    let b2 = header_bytes(i2, t2);
    lemma_write_parse_round_trip(b1, b1, i1, t1);
    assert(b2.subrange(0, PACKET_HEAD_SIZE as int) =~= b2);
    assert(b1.subrange(0, PACKET_HEAD_SIZE as int) =~= b1);
    lemma_write_parse_round_trip(b2, b2, i2, t2);
}

} // verus!
