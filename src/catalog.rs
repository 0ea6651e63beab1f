//! The catalog of levels: the data buffer paired with the header's offset table,
//! and the forward-only enumeration of its levels.

use crate::error::DecodeError;
use crate::header::{decode_header, header_fields, HeaderTable, LEVEL_SLOTS};
use crate::level::{decode_level, level_at, level_fits, plane_end, Level, LevelView, SUB_HEADER_LEN};
use vstd::prelude::*;

verus! {

/// The data buffer of a GameMaps file, with the header that indexes it.
#[derive(Debug, PartialEq, Eq)]
pub struct GameData {
    maps_data: Vec<u8>,
    level_offsets: [i32; 100],
    magic: u16,
    tileinfo: Option<Vec<u8>>,
}

/// What a `GameData` holds, as plain values.
pub struct GameDataView {
    pub maps_data: Seq<u8>,
    pub level_offsets: Seq<i32>,
    pub magic: u16,
    pub tileinfo: Option<Seq<u8>>,
}

/// The plain value of an optional byte vector.
pub open spec fn opt_bytes(v: Option<Vec<u8>>) -> Option<Seq<u8>> {
    match v {
        Some(b) => Some(b@),
        None => None,
    }
}

impl View for GameData {
    type V = GameDataView;

    closed spec fn view(&self) -> GameDataView {
        GameDataView {
            maps_data: self.maps_data@,
            level_offsets: self.level_offsets@,
            magic: self.magic,
            tileinfo: opt_bytes(self.tileinfo),
        }
    }
}

/// The planes of a level are its `planes` field: three borrowed byte ranges of the
/// data buffer.
pub struct Planes {}

/// A forward-only cursor over the levels of a `GameData`.
#[derive(Debug)]
pub struct Levels<'gm> {
    maps_data: &'gm [u8],
    offsets: &'gm [i32; 100],
    pos: usize,
    done: bool,
}

/// What a `Levels` cursor holds, as plain values: the buffer, the table, the next slot,
/// and whether the enumeration has ended.
pub struct LevelsView {
    pub maps_data: Seq<u8>,
    pub offsets: Seq<i32>,
    pub pos: int,
    pub done: bool,
}

impl<'gm> View for Levels<'gm> {
    type V = LevelsView;

    closed spec fn view(&self) -> LevelsView {
        LevelsView {
            maps_data: self.maps_data@,
            offsets: self.offsets@,
            pos: self.pos as int,
            done: self.done,
        }
    }
}

/// The first slot at or after `i` that holds a non-positive offset, or the table's
/// length: enumeration from slot `i` visits exactly the slots before it.
pub open spec fn positive_run(offsets: Seq<i32>, i: int) -> int
    decreases offsets.len() - i,
{
    if i >= offsets.len() || offsets[i] <= 0 {
        i
    } else {
        positive_run(offsets, i + 1)
    }
}

/// The number of levels that enumeration of `offsets` visits.
pub open spec fn level_count(offsets: Seq<i32>) -> int {
    positive_run(offsets, 0)
}

/// What `positive_run` is: every slot from `i` up to it is positive, and it is the
/// table's end or a non-positive slot.
pub proof fn lemma_positive_run(offsets: Seq<i32>, i: int)
    requires
        0 <= i <= offsets.len(),
    ensures
        i <= positive_run(offsets, i) <= offsets.len(),
        forall|j: int| i <= j < positive_run(offsets, i) ==> offsets[j] > 0,
        positive_run(offsets, i) == offsets.len() || offsets[positive_run(offsets, i)] <= 0,
    decreases offsets.len() - i,
{
    if i < offsets.len() && offsets[i] > 0 {
        lemma_positive_run(offsets, i + 1);
    }
}

/// Enumeration ends at the first non-positive slot: no slot at or after it is visited,
/// whatever it holds.
pub proof fn lemma_enumeration_stops_at_sentinel(offsets: Seq<i32>, j: int)
    requires
        0 <= j < offsets.len(),
        offsets[j] <= 0,
    ensures
        level_count(offsets) <= j,
{
    lemma_positive_run(offsets, 0);
}

/// A table whose slots are all positive is visited whole, slot by slot.
pub proof fn lemma_full_table_enumerated(offsets: Seq<i32>)
    requires
        forall|j: int| 0 <= j < offsets.len() ==> offsets[j] > 0,
    ensures
        level_count(offsets) == offsets.len(),
{
    lemma_positive_run(offsets, 0);
}

/// A sub-header that reaches past the end of the buffer, or a plane that does, makes
/// the level fail with `OutOfBounds`.
pub proof fn lemma_out_of_range_level_fails(data: Seq<u8>, off: int)
    requires
        off + SUB_HEADER_LEN > data.len() || exists|p: int|
            0 <= p < 3 && #[trigger] plane_end(data, off, p) > data.len(),
    ensures
        level_at(data, off) == Err::<LevelView, DecodeError>(DecodeError::OutOfBounds),
{
    reveal(level_at);
    assert(!level_fits(data, off));
}

/// Decodes the header bytes and pairs the result with the data buffer.
///
/// Fails with `TooShort` exactly when `decode_header` does.
pub fn read(header_bytes: &[u8], maps_data: Vec<u8>) -> (r: Result<GameData, DecodeError>)
    ensures
        match header_fields(header_bytes@) {
            Some((magic, offsets, blob)) => r matches Ok(g) && g@ == (GameDataView {
                maps_data: maps_data@,
                level_offsets: offsets,
                magic,
                tileinfo: blob,
            }),
            None => r == Err::<GameData, DecodeError>(DecodeError::TooShort),
        },
{
    match decode_header(header_bytes) {
        Ok(table) => Ok(GameData::new(table, maps_data)),
        Err(e) => Err(e),
    }
}

impl GameData {
    /// Pairs a decoded header with the data buffer that its offsets point into.
    pub fn new(table: HeaderTable, maps_data: Vec<u8>) -> (r: GameData)
        ensures
            r@ == (GameDataView {
                maps_data: maps_data@,
                level_offsets: table.level_offsets@,
                magic: table.magic,
                tileinfo: opt_bytes(table.trailing_blob),
            }),
    {
        GameData {
            maps_data,
            level_offsets: table.level_offsets,
            magic: table.magic,
            tileinfo: table.trailing_blob,
        }
    }

    /// The magic value of the header.
    pub fn magic(&self) -> (r: u16)
        ensures
            r == self@.magic,
    {
        self.magic
    }

    /// The offset table of the header.
    pub fn level_offsets(&self) -> (r: &[i32; 100])
        ensures
            r@ == self@.level_offsets,
            self@.level_offsets.len() == 100,
    {
        &self.level_offsets
    }

    /// The bytes that followed the header's fixed region, if any.
    pub fn tileinfo(&self) -> (r: Option<&[u8]>)
        ensures
            match self@.tileinfo {
                Some(b) => r matches Some(t) && t@ == b,
                None => r is None,
            },
    {
        match &self.tileinfo {
            Some(b) => Some(b.as_slice()),
            None => None,
        }
    }

    /// The data buffer.
    pub fn maps_data(&self) -> (r: &[u8])
        ensures
            r@ == self@.maps_data,
    {
        self.maps_data.as_slice()
    }

    /// A cursor at the first slot of the offset table.
    pub fn levels(&self) -> (r: Levels<'_>)
        ensures
            r@ == (LevelsView {
                maps_data: self@.maps_data,
                offsets: self@.level_offsets,
                pos: 0,
                done: false,
            }),
            r@.offsets.len() == 100,
    {
        Levels { maps_data: self.maps_data.as_slice(), offsets: &self.level_offsets, pos: 0, done: false }
    }

    /// Every level that enumeration visits, in table order, or the first error met.
    ///
    /// The levels are those of the slots before the first non-positive offset. The
    /// result is `Ok` exactly when each of them decodes; otherwise it is the error of
    /// the first that does not.
    pub fn level_list(&self) -> (r: Result<Vec<Level<'_>>, DecodeError>)
        ensures
            r is Ok <==> forall|i: int|
                0 <= i < level_count(self@.level_offsets) ==> (#[trigger] level_at(
                    self@.maps_data,
                    self@.level_offsets[i] as int,
                )) is Ok,
            r matches Ok(v) ==> {
                &&& v@.len() == level_count(self@.level_offsets)
                &&& forall|i: int|
                    0 <= i < v@.len() ==> level_at(self@.maps_data, self@.level_offsets[i] as int)
                        == Ok::<LevelView, DecodeError>(#[trigger] v@[i]@)
            },
            r matches Err(e) ==> exists|i: int|
                {
                    &&& 0 <= i < level_count(self@.level_offsets)
                    &&& level_at(self@.maps_data, #[trigger] self@.level_offsets[i] as int)
                        == Err::<LevelView, DecodeError>(e)
                    &&& forall|j: int|
                        0 <= j < i ==> (#[trigger] level_at(
                            self@.maps_data,
                            self@.level_offsets[j] as int,
                        )) is Ok
                },
    {
        let ghost data = self@.maps_data;
        let ghost offsets = self@.level_offsets;
        let ghost n = level_count(offsets);
        proof {
            lemma_positive_run(offsets, 0);
        }
        let mut it = self.levels();
        let mut out: Vec<Level<'_>> = Vec::new();
        loop
            invariant
                data == self@.maps_data,
                offsets == self@.level_offsets,
                it@.maps_data == data,
                it@.offsets == offsets,
                offsets.len() == 100,
                !it@.done,
                0 <= it@.pos <= n <= 100,
                n == level_count(offsets),
                it@.pos == out@.len(),
                forall|j: int| 0 <= j < n ==> offsets[j] > 0,
                n == offsets.len() || offsets[n] <= 0,
                forall|i: int|
                    0 <= i < out@.len() ==> level_at(data, offsets[i] as int) == Ok::<
                        LevelView,
                        DecodeError,
                    >(#[trigger] out@[i]@),
            decreases 100 - it@.pos,
        {
            match it.next() {
                None => {
                    assert(it@.pos == n);
                    assert forall|i: int| 0 <= i < n implies (#[trigger] level_at(
                        data,
                        offsets[i] as int,
                    )) is Ok by {
                        assert(level_at(data, offsets[i] as int) == Ok::<LevelView, DecodeError>(
                            out@[i]@,
                        ));
                    }
                    return Ok(out);
                },
                Some(Err(e)) => {
                    let ghost pos = it@.pos;
                    assert(pos < n);
                    assert(level_at(data, offsets[pos] as int) == Err::<LevelView, DecodeError>(e));
                    assert forall|j: int| 0 <= j < pos implies (#[trigger] level_at(
                        data,
                        offsets[j] as int,
                    )) is Ok by {
                        assert(level_at(data, offsets[j] as int) == Ok::<LevelView, DecodeError>(
                            out@[j]@,
                        ));
                    }
                    return Err(e);
                },
                Some(Ok(level)) => {
                    out.push(level);
                },
            }
        }
    }
}


impl<'gm> Levels<'gm> {
    /// Advances the enumeration by one slot.
    ///
    /// Returns `None`, and ends the enumeration, when it has already ended, when the
    /// table is exhausted, or when the slot holds a non-positive offset. Otherwise
    /// decodes the level at that offset: on success the cursor moves to the next slot;
    /// on failure the error is returned once and the enumeration ends.
    pub fn next(&mut self) -> (r: Option<Result<Level<'gm>, DecodeError>>)
        ensures
            ({
                let s = old(self)@;
                let t = final(self)@;
                &&& t.maps_data == s.maps_data
                &&& t.offsets == s.offsets
                &&& if s.done || s.pos >= s.offsets.len() || s.offsets[s.pos] <= 0 {
                    r is None && t.done && t.pos == s.pos
                } else {
                    match level_at(s.maps_data, s.offsets[s.pos] as int) {
                        Ok(v) => (r matches Some(Ok(l)) && l@ == v) && !t.done && t.pos == s.pos
                            + 1,
                        Err(e) => r == Some(Err::<Level<'gm>, DecodeError>(e)) && t.done && t.pos
                            == s.pos,
                    }
                }
            }),
    {
        if self.done || self.pos >= LEVEL_SLOTS || self.offsets[self.pos] <= 0 {
            self.done = true;
            return None;
        }
        let off = self.offsets[self.pos];
        match decode_level(self.maps_data, off as usize) {
            Ok(level) => {
                self.pos += 1;
                Some(Ok(level))
            },
            Err(e) => {
                self.done = true;
                Some(Err(e))
            },
        }
    }
}

} // verus!
