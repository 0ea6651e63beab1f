//! The header file: a magic value, a table of level offsets and an optional
//! opaque blob that follows the fixed region.

use crate::error::DecodeError;
use crate::layout::{i32_bytes, le_i32, le_u16, push_i32_le, push_u16_le, read_i32_le, read_u16_le, u16_bytes};
use vstd::prelude::*;
use vstd::slice::{slice_subrange, slice_to_vec};

verus! {

/// Length of the fixed region at the start of a header buffer; what follows it is the blob.
pub const HEADER_LEN: usize = 38;

/// Number of slots in the level offset table.
pub const LEVEL_SLOTS: usize = 100;

/// The decoded header file.
#[derive(Debug, PartialEq, Eq)]
pub struct HeaderTable {
    pub magic: u16,
    /// Byte offsets of the levels in the data buffer; a non-positive entry marks an unused slot.
    pub level_offsets: [i32; 100],
    /// The bytes after the fixed region, when there are any.
    pub trailing_blob: Option<Vec<u8>>,
}

/// Slot `k` of the offset table held in header bytes `b`: the little-endian `i32` at
/// `2 + 4 * k`, or 0 (an unused slot) when those four bytes lie past the end of `b`.
pub open spec fn offset_slot(b: Seq<u8>, k: int) -> i32 {
    if 2 + 4 * k + 4 <= b.len() {
        le_i32(b, 2 + 4 * k)
    } else {
        0
    }
}

/// The offset table held in header bytes `b`.
pub open spec fn header_offsets(b: Seq<u8>) -> Seq<i32> {
    Seq::new(100, |k: int| offset_slot(b, k))
}

/// The bytes that store `magic` and then each of `offsets`, little-endian.
pub open spec fn encoded_header(magic: u16, offsets: Seq<i32>) -> Seq<u8> {
    u16_bytes(magic) + Seq::new((4 * offsets.len()) as nat, |j: int| i32_bytes(offsets[j / 4])[j % 4])
}

/// The header held in `b`, as magic, offset table and trailing blob, or `None` when
/// `b` is shorter than the fixed region.
pub open spec fn header_fields(b: Seq<u8>) -> Option<(u16, Seq<i32>, Option<Seq<u8>>)> {
    if b.len() < HEADER_LEN {
        None
    } else {
        Some(
            (
                le_u16(b, 0),
                header_offsets(b),
                if b.len() == HEADER_LEN {
                    None
                } else {
                    Some(b.subrange(HEADER_LEN as int, b.len() as int))
                },
            ),
        )
    }
}

/// Decodes a header buffer.
///
/// A buffer shorter than the fixed region fails with `TooShort`. Otherwise the magic is
/// the little-endian `u16` at byte 0, slot `k` of the offset table is the little-endian
/// `i32` at byte `2 + 4 * k` (0 where the buffer ends before it), and the bytes from the
/// end of the fixed region on, if any, are copied out as the trailing blob.
pub fn decode_header(bytes: &[u8]) -> (r: Result<HeaderTable, DecodeError>)
    ensures
        bytes@.len() < HEADER_LEN <==> r is Err,
        r is Err ==> r == Err::<HeaderTable, DecodeError>(DecodeError::TooShort),
        r matches Ok(t) ==> {
            &&& t.magic == le_u16(bytes@, 0)
            &&& t.level_offsets@ == header_offsets(bytes@)
            &&& (t.trailing_blob is None <==> bytes@.len() == HEADER_LEN)
            &&& (t.trailing_blob matches Some(blob) ==> blob@ == bytes@.subrange(
                HEADER_LEN as int,
                bytes@.len() as int,
            ))
        },
{
    let len = bytes.len();
    if len < HEADER_LEN {
        return Err(DecodeError::TooShort);
    }
    let magic = read_u16_le(bytes, 0);
    let mut level_offsets = [0i32; 100];
    let mut k: usize = 0;
    while k < LEVEL_SLOTS
        invariant
            k <= LEVEL_SLOTS,
            len == bytes@.len(),
            level_offsets@.len() == 100,
            forall|j: int| 0 <= j < k ==> level_offsets@[j] == offset_slot(bytes@, j),
            forall|j: int| k <= j < 100 ==> level_offsets@[j] == 0,
        decreases LEVEL_SLOTS - k,
    {
        if 4 * k + 6 <= len {
            level_offsets[k] = read_i32_le(bytes, 4 * k + 2);
        }
        k += 1;
    }
    assert(level_offsets@ =~= header_offsets(bytes@));
    let trailing_blob = if len == HEADER_LEN {
        None
    } else {
        Some(slice_to_vec(slice_subrange(bytes, HEADER_LEN, len)))
    };
    Ok(HeaderTable { magic, level_offsets, trailing_blob })
}

/// Encodes a magic value and an offset table as header bytes: the magic, then each
/// offset, little-endian.
pub fn encode_header(magic: u16, level_offsets: &[i32; 100]) -> (r: Vec<u8>)
    ensures
        r@ == encoded_header(magic, level_offsets@),
{
    let mut out: Vec<u8> = Vec::new();
    push_u16_le(&mut out, magic);
    let mut k: usize = 0;
    while k < LEVEL_SLOTS
        invariant
            k <= LEVEL_SLOTS,
            level_offsets@.len() == 100,
            out@ == u16_bytes(magic) + Seq::new(
                (4 * k) as nat,
                |j: int| i32_bytes(level_offsets@[j / 4])[j % 4],
            ),
        decreases LEVEL_SLOTS - k,
    {
        let ghost before = out@;
        push_i32_le(&mut out, level_offsets[k]);
        assert(Seq::new((4 * k) as nat, |j: int| i32_bytes(level_offsets@[j / 4])[j % 4])
            + i32_bytes(level_offsets@[k as int]) =~= Seq::new(
            (4 * (k + 1)) as nat,
            |j: int| i32_bytes(level_offsets@[j / 4])[j % 4],
        ));
        k += 1;
    }
    out
}

/// Decoding the encoding of a magic value and a full offset table gives back that
/// magic value and that table; the encoding is long enough that decoding succeeds.
pub proof fn lemma_header_round_trip(magic: u16, offsets: Seq<i32>)
    requires
        offsets.len() == 100,
    ensures
        encoded_header(magic, offsets).len() >= HEADER_LEN,
        le_u16(encoded_header(magic, offsets), 0) == magic,
        header_offsets(encoded_header(magic, offsets)) == offsets,
{
    let b = encoded_header(magic, offsets);
    assert(b.len() == 402);
    crate::layout::lemma_u16_round_trip(magic);
    assert forall|k: int| 0 <= k < 100 implies offset_slot(b, k) == offsets[k] by {
        let w = i32_bytes(offsets[k]);
        assert(b[2 + 4 * k] == w[0]);
        assert(b[2 + 4 * k + 1] == w[1]);
        assert(b[2 + 4 * k + 2] == w[2]);
        assert(b[2 + 4 * k + 3] == w[3]);
        crate::layout::lemma_i32_round_trip(offsets[k]);
    }
    assert(header_offsets(b) =~= offsets);
}

} // verus!
