//! A level's sub-header inside the data buffer, and the borrowed view of the level
//! that it describes.

use crate::error::DecodeError;
use crate::layout::{le_i32, le_u16, read_i32_le, read_u16_le};
use itertools::Itertools;
use vstd::prelude::*;
use vstd::slice::slice_subrange;
use vstd::string::StringSliceAdditionalSpecFns;
use vstd::utf8::valid_utf8;

verus! {

/// Length of a level sub-header: three `i32` plane offsets, three `u16` plane
/// lengths, width, height and a 16-byte name.
pub const SUB_HEADER_LEN: usize = 38;

/// Position of the plane lengths within a sub-header.
pub const LENGTHS_AT: usize = 12;

/// Position of the width within a sub-header; the height follows it.
pub const WIDTH_AT: usize = 18;

/// Position of the name field within a sub-header.
pub const NAME_AT: usize = 22;

/// Length of the name field.
pub const NAME_LEN: usize = 16;

/// One level, borrowed from the data buffer it was decoded from.
#[derive(Debug, PartialEq, Eq)]
pub struct Level<'gm> {
    /// The three planes' raw, still encoded bytes, in sub-header order.
    pub planes: [&'gm [u8]; 3],
    /// The name field up to its first byte that is zero or outside ASCII.
    pub name: &'gm str,
    pub width: u16,
    pub height: u16,
}

/// What a `Level` holds, as plain values.
pub struct LevelView {
    pub planes: Seq<Seq<u8>>,
    pub name: Seq<u8>,
    pub width: u16,
    pub height: u16,
}

impl<'gm> View for Level<'gm> {
    type V = LevelView;

    open spec fn view(&self) -> LevelView {
        LevelView {
            planes: seq![self.planes@[0]@, self.planes@[1]@, self.planes@[2]@],
            name: self.name.spec_bytes(),
            width: self.width,
            height: self.height,
        }
    }
}

/// Start of plane `p` of the sub-header at `off`.
pub open spec fn plane_start(data: Seq<u8>, off: int, p: int) -> int {
    le_i32(data, off + 4 * p) as int
}

/// End (exclusive) of plane `p` of the sub-header at `off`.
pub open spec fn plane_end(data: Seq<u8>, off: int, p: int) -> int {
    plane_start(data, off, p) + le_u16(data, off + LENGTHS_AT + 2 * p) as int
}

/// Plane `p` of the sub-header at `off` lies inside `data`.
pub open spec fn plane_fits(data: Seq<u8>, off: int, p: int) -> bool {
    0 <= plane_start(data, off, p) && plane_end(data, off, p) <= data.len()
}

/// The sub-header at `off` and all three of its planes lie inside `data`.
pub open spec fn level_fits(data: Seq<u8>, off: int) -> bool {
    &&& 0 <= off
    &&& off + SUB_HEADER_LEN <= data.len()
    &&& plane_fits(data, off, 0)
    &&& plane_fits(data, off, 1)
    &&& plane_fits(data, off, 2)
}

/// A byte that may stand in a name: a non-zero ASCII byte.
pub open spec fn is_name_byte(b: u8) -> bool {
    0 < b < 0x80
}

/// The position of the first byte of `s` at or after `i` that may not stand in a name
/// (a zero byte or one outside ASCII), or the length of `s`.
pub open spec fn name_end(s: Seq<u8>, i: int) -> int
    decreases s.len() - i,
{
    if i >= s.len() || !is_name_byte(s[i]) {
        i
    } else {
        name_end(s, i + 1)
    }
}

/// The name of the sub-header at `off`: its name field up to the first byte that is
/// zero or outside ASCII. A name field padded with zero bytes gives the text before the
/// padding; a byte outside ASCII ends the name as a zero byte does.
pub open spec fn name_of(data: Seq<u8>, off: int) -> Seq<u8> {
    let field = data.subrange(off + NAME_AT, off + NAME_AT + NAME_LEN);
    field.subrange(0, name_end(field, 0))
}

/// The outcome of decoding the level whose sub-header is at `off` in `data`.
#[verifier::opaque]
pub open spec fn level_at(data: Seq<u8>, off: int) -> Result<LevelView, DecodeError> {
    if !level_fits(data, off) {
        Err(DecodeError::OutOfBounds)
    } else {
        Ok(
            LevelView {
                planes: seq![
                    data.subrange(plane_start(data, off, 0), plane_end(data, off, 0)),
                    data.subrange(plane_start(data, off, 1), plane_end(data, off, 1)),
                    data.subrange(plane_start(data, off, 2), plane_end(data, off, 2)),
                ],
                name: name_of(data, off),
                width: le_u16(data, off + WIDTH_AT),
                height: le_u16(data, off + WIDTH_AT + 2),
            },
        )
    }
}

/// What `name_end` is: every byte from `i` up to it may stand in a name.
pub proof fn lemma_name_end(s: Seq<u8>, i: int)
    requires
        0 <= i <= s.len(),
    ensures
        i <= name_end(s, i) <= s.len(),
        forall|j: int| i <= j < name_end(s, i) ==> is_name_byte(#[trigger] s[j]),
    decreases s.len() - i,
{
    if i < s.len() && is_name_byte(s[i]) {
        lemma_name_end(s, i + 1);
    }
}

/// Bytes that are all ASCII are valid UTF-8.
pub proof fn lemma_ascii_is_utf8(s: Seq<u8>)
    requires
        forall|j: int| 0 <= j < s.len() ==> #[trigger] s[j] < 0x80,
    ensures
        valid_utf8(s),
    decreases s.len(),
{
    if s.len() > 0 {
        let b = s[0];
        assert((b & 0x7f) as u32 <= 0x7f) by (bit_vector);
        let rest = s.subrange(1, s.len() as int);
        assert forall|j: int| 0 <= j < rest.len() implies #[trigger] rest[j] < 0x80 by {
            assert(rest[j] == s[j + 1]);
        }
        lemma_ascii_is_utf8(rest);
    }
}

/// Relies on itertools' `Itertools::collect_tuple`: the items of the iterator as a
/// tuple, in order, when it yields exactly three of them, and `None` otherwise.
#[verifier::external_body]
fn collect_triple(v: Vec<usize>) -> (r: Option<(usize, usize, usize)>)
    ensures
        r is Some <==> v@.len() == 3,
        r matches Some(t) ==> t.0 == v@[0] && t.1 == v@[1] && t.2 == v@[2],
{
    v.into_iter().collect_tuple()
}

/// Relies on `std::str::from_utf8`: the bytes as text when they are valid UTF-8,
/// with the same bytes, and `None` otherwise.
#[verifier::external_body]
fn text_of<'a>(b: &'a [u8]) -> (r: Option<&'a str>)
    ensures
        r is Some <==> valid_utf8(b@),
        r matches Some(s) ==> s.spec_bytes() == b@,
{
    std::str::from_utf8(b).ok()
}

/// Decodes the level whose sub-header starts at byte `off` of `data`.
///
/// Fails with `OutOfBounds` when the sub-header or any of its three planes does not
/// lie inside `data`; never fails otherwise.
#[verifier::loop_isolation(false)]
pub fn decode_level<'gm>(data: &'gm [u8], off: usize) -> (r: Result<Level<'gm>, DecodeError>)
    ensures
        match level_at(data@, off as int) {
            Ok(v) => r matches Ok(l) && l@ == v,
            Err(e) => r == Err::<Level<'gm>, DecodeError>(e),
        },
{
    reveal(level_at);
    let len = data.len();
    if off > len || len - off < SUB_HEADER_LEN {
        return Err(DecodeError::OutOfBounds);
    }
    let mut starts: Vec<usize> = Vec::new();
    let mut ends: Vec<usize> = Vec::new();
    let mut p: usize = 0;
    while p < 3
        invariant
            p <= 3,
            off + SUB_HEADER_LEN <= len == data@.len(),
            starts@.len() == p,
            ends@.len() == p,
            forall|q: int| 0 <= q < p ==> #[trigger] plane_fits(data@, off as int, q),
            forall|q: int| 0 <= q < p ==> #[trigger] starts@[q] == plane_start(data@, off as int, q),
            forall|q: int| 0 <= q < p ==> #[trigger] ends@[q] == plane_end(data@, off as int, q),
        decreases 3 - p,
    {
        let start = read_i32_le(data, off + 4 * p);
        let length = read_u16_le(data, off + LENGTHS_AT + 2 * p);
        if start < 0 || start as usize > len || len - (start as usize) < length as usize {
            return Err(DecodeError::OutOfBounds);
        }
        starts.push(start as usize);
        ends.push(start as usize + length as usize);
        p += 1;
    }
    let (s, e) = match (collect_triple(starts), collect_triple(ends)) {
        (Some(s), Some(e)) => (s, e),
        _ => {
            return Err(DecodeError::OutOfBounds);
        },
    };
    let field = slice_subrange(data, off + NAME_AT, off + NAME_AT + NAME_LEN);
    let mut n: usize = 0;
    while n < NAME_LEN && field[n] != 0 && field[n] < 0x80
        invariant
            n <= NAME_LEN,
            field@.len() == NAME_LEN,
            name_end(field@, n as int) == name_end(field@, 0),
        decreases NAME_LEN - n,
    {
        n += 1;
    }
    let name_bytes = slice_subrange(field, 0, n);
    proof {
        lemma_name_end(field@, 0);
        lemma_ascii_is_utf8(name_bytes@);
    }
    let name = match text_of(name_bytes) {
        Some(name) => name,
        // unreachable: the name bytes are ASCII, hence UTF-8
        None => {
            return Err(DecodeError::OutOfBounds);
        },
    };
    let level = Level {
        planes: [
            slice_subrange(data, s.0, e.0),
            slice_subrange(data, s.1, e.1),
            slice_subrange(data, s.2, e.2),
        ],
        name,
        width: read_u16_le(data, off + WIDTH_AT),
        height: read_u16_le(data, off + WIDTH_AT + 2),
    };
    assert(level@.planes =~= level_at(data@, off as int)->Ok_0.planes);
    Ok(level)
}

} // verus!
