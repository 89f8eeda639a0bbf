//! The framing of FL Studio files: header, chunks, events, note records, text.

use crate::bytes::{
    le16, le32, shortage, take, take_u16, take_u32, take_varint, varint_bytes, varint_is_read_back,
    varint_length, FlpError,
};
use crate::text::{char_units, decode_utf16_lossy, utf16_is_read_back, utf16_lossy, utf16_units};
use crate::types::{item_reports, report_item, Progress};
use vstd::prelude::*;
use vstd::slice::slice_subrange;

verus! {

/// Event that starts (or returns to) a pattern.
pub const EVENT_NEW_PATTERN: u8 = 65;

/// Event that names the current pattern.
pub const EVENT_PATTERN_NAME: u8 = 193;

/// Event that sets the project tempo, in thousandths of a beat per minute.
pub const EVENT_FINE_TEMPO: u8 = 0x9c;

/// Event that holds note records of the current pattern.
pub const EVENT_PATTERN_NOTES: u8 = 224;

/// Size of a note record in bytes.
pub const NOTE_RECORD_SIZE: usize = 24;

/// Pitch of the marker that changes the tempo of its section.
pub const PITCH_BPM_CHANGE: u8 = 56;

/// Pitch of the marker that sets `altAnim` on its section.
pub const PITCH_ALT_ANIM: u8 = 57;

/// Pitch of the marker that turns `mustHitSection` on.
pub const PITCH_MUST_HIT_TRUE: u8 = 53;

/// Pitch of the marker that turns `mustHitSection` off.
pub const PITCH_MUST_HIT_FALSE: u8 = 54;

/// A piano-roll note.
#[derive(Clone, Copy, Debug, PartialEq, Eq, Structural)]
pub struct FlNote {
    /// Position in ticks.
    pub position: u32,
    /// Length in ticks.
    pub length: u32,
    /// MIDI pitch.
    pub key: u8,
    /// Velocity, 0 to 127.
    pub velocity: u8,
    /// The portamento flag.
    pub portamento: bool,
}

/// An event of the event stream.
#[derive(Clone, Copy, Debug, PartialEq, Eq)]
pub enum FlEvent<'a> {
    Byte(u8, u8),
    Word(u8, u16),
    Dword(u8, u32),
    Data(u8, &'a [u8]),
}

/// An event as mathematical values.
#[verifier::ext_equal]
pub enum EventView {
    Byte(u8, u8),
    Word(u8, u16),
    Dword(u8, u32),
    Data(u8, Seq<u8>),
}

impl<'a> View for FlEvent<'a> {
    type V = EventView;

    open spec fn view(&self) -> EventView {
        match *self {
            FlEvent::Byte(id, v) => EventView::Byte(id, v),
            FlEvent::Word(id, v) => EventView::Word(id, v),
            FlEvent::Dword(id, v) => EventView::Dword(id, v),
            FlEvent::Data(id, v) => EventView::Data(id, v@),
        }
    }
}

/// What reading an event at `at` gives: the event (none from `end` on) or an
/// error, and the position behind what was read. The identifier decides the
/// payload: up to 63 a byte, up to 127 two bytes, up to 191 four bytes, else a
/// variable-length number and so many bytes.
pub open spec fn next_event(bytes: Seq<u8>, at: int, end: int) -> (
    Result<Option<EventView>, FlpError>,
    int,
) {
    if at >= end {
        (Ok(None), at)
    } else {
        match shortage(bytes.len(), at, 1) {
            Some(e) => (Err(e), at),
            None => {
                let id = bytes[at];
                if id < 64 {
                    match shortage(bytes.len(), at + 1, 1) {
                        Some(e) => (Err(e), at + 1),
                        None => (Ok(Some(EventView::Byte(id, bytes[at + 1]))), at + 2),
                    }
                } else if id < 128 {
                    match shortage(bytes.len(), at + 1, 2) {
                        Some(e) => (Err(e), at + 1),
                        None => (Ok(Some(EventView::Word(id, le16(bytes, at + 1)))), at + 3),
                    }
                } else if id < 192 {
                    match shortage(bytes.len(), at + 1, 4) {
                        Some(e) => (Err(e), at + 1),
                        None => (Ok(Some(EventView::Dword(id, le32(bytes, at + 1)))), at + 5),
                    }
                } else {
                    match varint_length(bytes, at + 1) {
                        (Err(e), stop) => (Err(e), stop),
                        (Ok(len), stop) => match shortage(bytes.len(), stop, len as int) {
                            Some(e) => (Err(e), stop),
                            None => (
                                Ok(Some(EventView::Data(id, bytes.subrange(stop, stop + len)))),
                                stop + len,
                            ),
                        },
                    }
                }
            },
        }
    }
}

/// Reads the events of a file one by one.
pub struct EventReader<'a> {
    /// The whole file.
    pub bytes: &'a [u8],
    /// Position of the next event.
    pub at: usize,
    /// No event starts here or later.
    pub end: usize,
}

impl<'a> EventReader<'a> {
    /// Reads the next event; `None` at the end of the stream.
    pub fn next(&mut self) -> (r: Result<Option<FlEvent<'a>>, FlpError>)
        ensures
            final(self).bytes@ == old(self).bytes@,
            final(self).end == old(self).end,
            ({
                let (result, stop) = next_event(old(self).bytes@, old(self).at as int, old(self).end as int);
                &&& final(self).at == stop
                &&& match result {
                    Err(e) => r == Err::<Option<FlEvent<'a>>, FlpError>(e),
                    Ok(None) => r matches Ok(None),
                    Ok(Some(v)) => r matches Ok(Some(event)) && event@ == v,
                }
            }),
    {
        if self.at >= self.end {
            return Ok(None);
        }
        let data: &'a [u8] = self.bytes;
        let head: &[u8] = take(data, &mut self.at, 1)?;
        let id: u8 = head[0];
        if id < 64 {
            let payload: &[u8] = take(data, &mut self.at, 1)?;
            Ok(Some(FlEvent::Byte(id, payload[0])))
        } else if id < 128 {
            let value: u16 = take_u16(data, &mut self.at)?;
            Ok(Some(FlEvent::Word(id, value)))
        } else if id < 192 {
            let value: u32 = take_u32(data, &mut self.at)?;
            Ok(Some(FlEvent::Dword(id, value)))
        } else {
            let len: usize = take_varint(data, &mut self.at)?;
            let payload: &'a [u8] = take(data, &mut self.at, len)?;
            Ok(Some(FlEvent::Data(id, payload)))
        }
    }
}

/// The four bytes `FLhd`.
pub open spec fn header_magic() -> Seq<u8> {
    seq![0x46, 0x4c, 0x68, 0x64]
}

/// The four bytes `FLdt`.
pub open spec fn data_magic() -> Seq<u8> {
    seq![0x46, 0x4c, 0x64, 0x74]
}

/// Skips chunks from `at` on until the data chunk; gives where its payload
/// starts and ends. The payload may claim to be longer than the file.
pub open spec fn find_data(bytes: Seq<u8>, at: int) -> Result<(int, int), FlpError>
    decreases bytes.len() - at,
{
    match shortage(bytes.len(), at, 4) {
        Some(e) => Err(e),
        None => match shortage(bytes.len(), at + 4, 4) {
            Some(e) => Err(e),
            None => {
                let len = le32(bytes, at + 4) as int;
                if bytes.subrange(at, at + 4) == data_magic() {
                    if at + 8 + len > usize::MAX {
                        Err(FlpError::DataLengthOverflow)
                    } else if at + 8 + len < bytes.len() {
                        Ok((at + 8, at + 8 + len))
                    } else {
                        Ok((at + 8, bytes.len() as int))
                    }
                } else {
                    match shortage(bytes.len(), at + 8, len) {
                        Some(e) => Err(e),
                        None => find_data(bytes, at + 8 + len),
                    }
                }
            },
        },
    }
}

/// The position behind the header.
pub const HEADER_END: usize = 14;

/// What the header and the chunks say: the ticks per quarter note and where the
/// data starts and ends.
pub open spec fn layout(bytes: Seq<u8>) -> Result<(u16, int, int), FlpError> {
    if bytes.len() < 4 || bytes.take(4) != header_magic() {
        Err(FlpError::MissingMagic)
    } else if bytes.len() < 8 {
        Err(FlpError::Truncated)
    } else if le32(bytes, 4) != 6 {
        Err(FlpError::HeaderLength(le32(bytes, 4)))
    } else if bytes.len() < HEADER_END {
        Err(FlpError::Truncated)
    } else {
        match find_data(bytes, HEADER_END as int) {
            Err(e) => Err(e),
            Ok((start, end)) => Ok((le16(bytes, 12), start, end)),
        }
    }
}

/// Whether the four bytes of `s` are those given.
fn is_tag(s: &[u8], a: u8, b: u8, c: u8, d: u8) -> (r: bool)
    requires
        s@.len() == 4,
    ensures
        r == (s@ == seq![a, b, c, d]),
{
    let r: bool = s[0] == a && s[1] == b && s[2] == c && s[3] == d;
    proof {
        if r {
            assert(s@ =~= seq![a, b, c, d]);
        }
    }
    r
}

/// Reads header and chunk heads; gives the ticks per quarter note and a reader
/// at the start of the data.
pub fn open_flp(bytes: &[u8]) -> (r: Result<(u16, EventReader<'_>), FlpError>)
    ensures
        match layout(bytes@) {
            Err(e) => r matches Err(f) && f == e,
            Ok((ppq, start, end)) => r matches Ok((p, reader)) && p == ppq && reader.bytes@ == bytes@
                && reader.at == start && reader.end == end && start <= end <= bytes@.len(),
        },
{
    if bytes.len() < 4 {
        return Err(FlpError::MissingMagic);
    }
    let magic: &[u8] = slice_subrange(bytes, 0, 4);
    if !is_tag(magic, 0x46, 0x4c, 0x68, 0x64) {
        return Err(FlpError::MissingMagic);
    }
    let mut at: usize = 4;
    let header_len: u32 = take_u32(bytes, &mut at)?;
    if header_len != 6 {
        return Err(FlpError::HeaderLength(header_len));
    }
    let _format: u16 = take_u16(bytes, &mut at)?;
    let _channels: u16 = take_u16(bytes, &mut at)?;
    let ppq: u16 = take_u16(bytes, &mut at)?;
    loop
        invariant
            at <= bytes@.len(),
            bytes@.len() >= HEADER_END,
            bytes@.take(4) == header_magic(),
            le32(bytes@, 4) == 6,
            ppq == le16(bytes@, 12),
            find_data(bytes@, at as int) == find_data(bytes@, HEADER_END as int),
        decreases bytes@.len() - at,
    {
        let id: &[u8] = take(bytes, &mut at, 4)?;
        let len: usize = take_u32(bytes, &mut at)? as usize;
        if is_tag(id, 0x46, 0x4c, 0x64, 0x74) {
            match at.checked_add(len) {
                None => {
                    return Err(FlpError::DataLengthOverflow);
                },
                Some(claimed) => {
                    let end: usize = if claimed < bytes.len() {
                        claimed
                    } else {
                        bytes.len()
                    };
                    return Ok((ppq, EventReader { bytes, at, end }));
                },
            }
        }
        take(bytes, &mut at, len)?;
    }
}

/// The note in a 24-byte record: position at 0, length at 8, pitch at 12, flags
/// at 19 (0x08 is portamento), velocity at 21.
pub open spec fn record_note(record: Seq<u8>) -> FlNote {
    FlNote {
        position: le32(record, 0),
        length: le32(record, 8),
        key: record[12],
        velocity: record[21],
        portamento: record[19] & 0x08 != 0,
    }
}

/// The record with this index.
pub open spec fn record_at(payload: Seq<u8>, index: int) -> Seq<u8> {
    payload.subrange(index * NOTE_RECORD_SIZE, index * NOTE_RECORD_SIZE + NOTE_RECORD_SIZE)
}

/// The notes of all whole records.
pub open spec fn payload_notes(payload: Seq<u8>) -> Seq<FlNote> {
    Seq::new(payload.len() / (NOTE_RECORD_SIZE as nat), |i: int| record_note(record_at(payload, i)))
}

/// Appends the notes of a block of records to `destination`, and the progress
/// reports on them to `log`. Nothing is appended unless the block consists of
/// whole records.
pub fn parse_notes(
    payload: &[u8],
    destination: &mut Vec<FlNote>,
    log: &mut Vec<Progress>,
) -> (r: Result<(), FlpError>)
    ensures
        payload@.len() % (NOTE_RECORD_SIZE as nat) != 0 ==> {
            &&& r == Err::<(), FlpError>(FlpError::NotesLength(payload@.len() as usize))
            &&& final(destination)@ == old(destination)@
            &&& final(log)@ == old(log)@
        },
        payload@.len() % (NOTE_RECORD_SIZE as nat) == 0 ==> {
            let total = payload@.len() / (NOTE_RECORD_SIZE as nat);
            &&& r == Ok::<(), FlpError>(())
            &&& final(destination)@ == old(destination)@ + payload_notes(payload@)
            &&& final(log)@ == old(log)@ + item_reports(total, total)
        },
{
    if payload.len() % NOTE_RECORD_SIZE != 0 {
        return Err(FlpError::NotesLength(payload.len()));
    }
    let total: usize = payload.len() / NOTE_RECORD_SIZE;
    destination.reserve(total);
    assert(destination@ + payload_notes(payload@).take(0) =~= old(destination)@);
    assert(log@ + item_reports(0, total as nat) =~= old(log)@);
    for index in 0..total
        invariant
            total == payload@.len() / (NOTE_RECORD_SIZE as nat),
            payload@.len() == payload.len(),
            destination@ == old(destination)@ + payload_notes(payload@).take(index as int),
            log@ == old(log)@ + item_reports(index as nat, total as nat),
    {
        let at: usize = index * NOTE_RECORD_SIZE;
        let record: &[u8] = slice_subrange(payload, at, at + NOTE_RECORD_SIZE);
        let position: u32 = record[0] as u32 + 0x100 * record[1] as u32 + 0x1_0000 * record[2] as u32
            + 0x100_0000 * record[3] as u32;
        let length: u32 = record[8] as u32 + 0x100 * record[9] as u32 + 0x1_0000 * record[10] as u32
            + 0x100_0000 * record[11] as u32;
        let note: FlNote = FlNote {
            position,
            length,
            key: record[12],
            velocity: record[21],
            portamento: record[19] & 0x08 != 0,
        };
        destination.push(note);
        report_item(index, total, log);
        proof {
            assert(record@ == record_at(payload@, index as int));
            assert(note == payload_notes(payload@)[index as int]);
            assert(destination@ =~= old(destination)@ + payload_notes(payload@).take(index + 1));
            assert(log@ =~= old(log)@ + item_reports((index + 1) as nat, total as nat));
        }
    }
    assert(payload_notes(payload@).take(total as int) =~= payload_notes(payload@));
    Ok(())
}

/// The little-endian 16-bit units of a text payload; an odd last byte is dropped.
pub open spec fn text_units(payload: Seq<u8>) -> Seq<u16> {
    Seq::new(payload.len() / 2, |i: int| le16(payload, 2 * i))
}

/// The units up to the first zero.
pub open spec fn until_zero(units: Seq<u16>) -> Seq<u16>
    decreases units.len(),
{
    if units.len() == 0 || units[0] == 0 {
        seq![]
    } else {
        seq![units[0]] + until_zero(units.skip(1))
    }
}

/// The text of a text payload: UTF-16, little-endian, ended by a zero.
pub open spec fn fl_text(payload: Seq<u8>) -> Seq<char> {
    utf16_lossy(until_zero(text_units(payload)))
}

/// Decodes a text payload.
pub fn decode_fl_text(payload: &[u8]) -> (r: String)
    ensures
        r@ == fl_text(payload@),
{
    let mut units: Vec<u16> = Vec::new();
    let count: usize = payload.len() / 2;
    let mut i: usize = 0;
    let ghost all = text_units(payload@);
    assert(all.skip(0) =~= all);
    while i < count
        invariant_except_break
            i <= count,
        invariant
            count == payload@.len() / 2,
            payload@.len() == payload.len(),
            all == text_units(payload@),
            i <= count,
            units@ + until_zero(all.skip(i as int)) == until_zero(all),
        ensures
            until_zero(all.skip(i as int)).len() == 0,
        decreases count - i,
    {
        let unit: u16 = payload[2 * i] as u16 + 256 * payload[2 * i + 1] as u16;
        let ghost rest = all.skip(i as int);
        assert(rest[0] == unit);
        if unit == 0 {
            break;
        }
        let ghost before = units@;
        units.push(unit);
        proof {
            assert(rest.skip(1) =~= all.skip(i + 1));
            assert(units@ + until_zero(all.skip(i + 1)) =~= before + until_zero(rest));
        }
        i += 1;
    }
    assert(units@ =~= until_zero(all));
    decode_utf16_lossy(&units)
}

/// The bytes of some 16-bit units, each lowest first.
pub open spec fn unit_bytes(units: Seq<u16>) -> Seq<u8> {
    Seq::new(
        2 * units.len(),
        |i: int|
            if i % 2 == 0 {
                (units[i / 2] % 256) as u8
            } else {
                (units[i / 2] / 256) as u8
            },
    )
}

/// Bytes that may stand behind a text: none, one that is no whole unit, or a zero
/// unit and anything behind it.
pub open spec fn ends_text(tail: Seq<u8>) -> bool {
    tail.len() < 2 || (tail[0] == 0 && tail[1] == 0)
}

proof fn lemma_units_of_bytes(units: Seq<u16>, tail: Seq<u8>)
    ensures
        text_units(unit_bytes(units) + tail) == units + text_units(tail),
{
    let payload = unit_bytes(units) + tail;
    let all = text_units(payload);
    assert(all.len() == units.len() + tail.len() / 2);
    assert forall|i: int| 0 <= i < all.len() implies all[i] == (units + text_units(tail))[i] by {
        if i < units.len() {
            assert(payload[2 * i] == (units[i] % 256) as u8);
            assert(payload[2 * i + 1] == (units[i] / 256) as u8);
        } else {
            let j = i - units.len();
            assert(payload[2 * i] == tail[2 * j]);
            assert(payload[2 * i + 1] == tail[2 * j + 1]);
        }
    }
    assert(all =~= units + text_units(tail));
}

proof fn lemma_until_zero(units: Seq<u16>, tail: Seq<u16>)
    requires
        forall|i: int| 0 <= i < units.len() ==> #[trigger] units[i] != 0,
        tail.len() > 0 ==> tail[0] == 0,
    ensures
        until_zero(units + tail) == units,
    decreases units.len(),
{
    let all = units + tail;
    if units.len() == 0 {
        assert(all =~= tail);
        assert(until_zero(all) =~= units);
    } else {
        lemma_until_zero(units.skip(1), tail);
        assert(all.skip(1) =~= units.skip(1) + tail);
        assert(until_zero(all) =~= units);
    }
}

proof fn lemma_no_zero_in_char(c: char)
    requires
        c as u32 != 0,
    ensures
        forall|i: int| 0 <= i < char_units(c).len() ==> #[trigger] char_units(c)[i] != 0,
{
    let code = c as u32;
    if code >= 0x10000 {
        assert(char_units(c)[0] == 0xd800 + (code - 0x10000) / 0x400);
        assert(char_units(c)[1] == 0xdc00 + (code - 0x10000) % 0x400);
    }
}

proof fn lemma_no_zero_unit(text: Seq<char>)
    requires
        forall|i: int| 0 <= i < text.len() ==> #[trigger] text[i] as u32 != 0,
    ensures
        forall|i: int| 0 <= i < utf16_units(text).len() ==> #[trigger] utf16_units(text)[i] != 0,
    decreases text.len(),
{
    if text.len() > 0 {
        lemma_no_zero_unit(text.skip(1));
        let head = char_units(text[0]);
        let rest = utf16_units(text.skip(1));
        lemma_no_zero_in_char(text[0]);
        assert forall|i: int| 0 <= i < utf16_units(text).len() implies #[trigger] utf16_units(text)[i]
            != 0 by {
            if i < head.len() {
                assert(utf16_units(text)[i] == head[i]);
            } else {
                assert(utf16_units(text)[i] == rest[i - head.len()]);
            }
        }
    }
}

/// A text that was written as UTF-16, little-endian, is read back: with or without a
/// zero behind it, and whatever follows the zero; an odd last byte does no harm.
pub proof fn text_is_read_back(text: Seq<char>, tail: Seq<u8>)
    requires
        forall|i: int| 0 <= i < text.len() ==> #[trigger] text[i] as u32 != 0,
        ends_text(tail),
    ensures
        fl_text(unit_bytes(utf16_units(text)) + tail) == text,
{
    let units = utf16_units(text);
    lemma_units_of_bytes(units, tail);
    lemma_no_zero_unit(text);
    lemma_until_zero(units, text_units(tail));
    utf16_is_read_back(text);
}

/// A file is a score and not a project when its format field is not zero.
pub open spec fn is_score(bytes: Seq<u8>) -> bool {
    bytes.len() >= 10 && le16(bytes, 8) != 0
}

/// Whether a file is a score and not a project.
pub fn is_fsc(bytes: &[u8]) -> (r: bool)
    ensures
        r == is_score(bytes@),
{
    if bytes.len() < 10 {
        return false;
    }
    let format: u16 = bytes[8] as u16 + 256 * bytes[9] as u16;
    format != 0
}

/// The bytes of an event: its number and its value, of one, two or four bytes or of as
/// many as the length says.
pub open spec fn event_bytes(event: EventView) -> Seq<u8> {
    match event {
        EventView::Byte(id, v) => seq![id, v],
        EventView::Word(id, v) => seq![id, (v % 256) as u8, (v / 256) as u8],
        EventView::Dword(id, v) => seq![
            id,
            (v % 256) as u8,
            (v / 256 % 256) as u8,
            (v / 65536 % 256) as u8,
            (v / 16777216) as u8,
        ],
        EventView::Data(id, payload) => seq![id] + varint_bytes(payload.len()) + payload,
    }
}

/// The number of an event tells its kind.
pub open spec fn has_own_number(event: EventView) -> bool {
    match event {
        EventView::Byte(id, _) => id < 64,
        EventView::Word(id, _) => 64 <= id < 128,
        EventView::Dword(id, _) => 128 <= id < 192,
        EventView::Data(id, _) => 192 <= id,
    }
}

/// An event is read back from its bytes, wherever they stand, and reading goes on right
/// behind them.
pub proof fn event_is_read_back(before: Seq<u8>, event: EventView, after: Seq<u8>, end: int)
    requires
        has_own_number(event),
        before.len() < end,
        (before + event_bytes(event) + after).len() <= usize::MAX,
    ensures
        next_event(before + event_bytes(event) + after, before.len() as int, end) == (
            Ok::<Option<EventView>, FlpError>(Some(event)),
            (before.len() + event_bytes(event).len()) as int,
        ),
{
    let bytes = before + event_bytes(event) + after;
    let at = before.len() as int;
    let own = event_bytes(event);
    assert forall|i: int| 0 <= i < own.len() implies bytes[at + i] == #[trigger] own[i] by {}
    assert(bytes[at] == own[0]);
    match event {
        EventView::Byte(_, _) => {
            assert(bytes[at + 1] == own[1]);
        },
        EventView::Word(_, v) => {
            assert(bytes[at + 1] == own[1] && bytes[at + 2] == own[2]);
        },
        EventView::Dword(_, v) => {
            assert(bytes[at + 1] == own[1] && bytes[at + 2] == own[2]);
            assert(bytes[at + 3] == own[3] && bytes[at + 4] == own[4]);
        },
        EventView::Data(id, payload) => {
            let length = varint_bytes(payload.len());
            assert(bytes =~= before.push(id) + length + (payload + after));
            varint_is_read_back(before.push(id), payload.len() as usize, payload + after);
            let stop = at + 1 + length.len();
            assert(bytes.subrange(stop, stop + payload.len()) =~= payload);
        },
    }
}

/// Nothing is read from the end of the data on.
pub proof fn reading_stops_at_the_end(bytes: Seq<u8>, at: int, end: int)
    ensures
        at >= end ==> next_event(bytes, at, end) == (Ok::<Option<EventView>, FlpError>(None), at),
        0 <= at < end && bytes.len() <= usize::MAX ==> next_event(bytes, at, end).0
            != Ok::<Option<EventView>, FlpError>(None),
        0 <= at < end && at >= bytes.len() && bytes.len() < usize::MAX && at < usize::MAX
            ==> next_event(bytes, at, end).0 == Err::<Option<EventView>, FlpError>(
            FlpError::Truncated,
        ),
{
}

/// The number of an event tells what is read: below 64 one byte, below 128 a number of 16
/// bits, below 192 one of 32 bits, and from there on as many bytes as the length says.
pub proof fn event_numbers_tell_the_kind(bytes: Seq<u8>, at: int, end: int)
    requires
        0 <= at < end,
        at < bytes.len() <= usize::MAX,
    ensures
        next_event(bytes, at, end).0 matches Ok(Some(event)) ==> {
            &&& has_own_number(event)
            &&& match event {
                EventView::Byte(id, v) => id == bytes[at] && v == bytes[at + 1],
                EventView::Word(id, v) => id == bytes[at] && v == bytes[at + 1] + 256 * bytes[at + 2],
                EventView::Dword(id, v) => id == bytes[at] && v == bytes[at + 1] + 256 * bytes[at + 2]
                    + 65536 * bytes[at + 3] + 16777216 * bytes[at + 4],
                EventView::Data(id, _) => id == bytes[at],
            }
        },
{
}

/// A chunk that is not the data is skipped with all its bytes, whatever they are.
pub proof fn other_chunks_are_skipped(bytes: Seq<u8>, at: int, len: int)
    requires
        0 <= at,
        0 <= len,
        at + 8 + len <= bytes.len() <= usize::MAX,
        len == bytes[at + 4] + 256 * bytes[at + 5] + 65536 * bytes[at + 6] + 16777216 * bytes[at + 7],
        bytes.subrange(at, at + 4) != seq![0x46u8, 0x4c, 0x64, 0x74],
    ensures
        find_data(bytes, at) == find_data(bytes, at + 8 + len),
{
}

/// The data lies behind the head of its chunk and is as long as that says, but ends with
/// the file.
pub proof fn data_chunk_is_found(bytes: Seq<u8>, at: int, len: int)
    requires
        0 <= at,
        at + 8 <= bytes.len() <= usize::MAX,
        len == bytes[at + 4] + 256 * bytes[at + 5] + 65536 * bytes[at + 6] + 16777216 * bytes[at + 7],
        bytes.subrange(at, at + 4) == seq![0x46u8, 0x4c, 0x64, 0x74],
        at + 8 + len <= usize::MAX,
    ensures
        find_data(bytes, at) == Ok::<(int, int), FlpError>(
            (
                at + 8,
                if at + 8 + len <= bytes.len() {
                    at + 8 + len
                } else {
                    bytes.len() as int
                },
            ),
        ),
{
}

/// Without a data chunk the file breaks off: behind its end no chunk is found, and none
/// may reach beyond it.
pub proof fn missing_data_is_refused(bytes: Seq<u8>, at: int, len: int)
    requires
        0 <= at,
        len == bytes[at + 4] + 256 * bytes[at + 5] + 65536 * bytes[at + 6] + 16777216 * bytes[at + 7],
        at + 8 + len <= usize::MAX,
        bytes.len() < at + 8 || (bytes.subrange(at, at + 4) != seq![0x46u8, 0x4c, 0x64, 0x74]
            && bytes.len() < at + 8 + len),
    ensures
        find_data(bytes, at) == Err::<(int, int), FlpError>(FlpError::Truncated),
{
}

/// A file opens exactly when it starts with the tag and length of a header and holds a
/// data chunk behind it; the ticks per quarter note are the last number of the header.
pub proof fn files_open_with_header_and_data(bytes: Seq<u8>)
    ensures
        ({
            let tagged = bytes.len() >= 4 && bytes.take(4) == seq![0x46u8, 0x4c, 0x68, 0x64];
            let length = bytes[4] + 256 * bytes[5] + 65536 * bytes[6] + 16777216 * bytes[7];
            &&& !tagged ==> layout(bytes) == Err::<(u16, int, int), FlpError>(
                FlpError::MissingMagic,
            )
            &&& tagged && bytes.len() < 8 ==> layout(bytes) == Err::<(u16, int, int), FlpError>(
                FlpError::Truncated,
            )
            &&& tagged && bytes.len() >= 8 && length != 6 ==> layout(bytes) == Err::<
                (u16, int, int),
                FlpError,
            >(FlpError::HeaderLength(length as u32))
            &&& tagged && 8 <= bytes.len() < 14 && length == 6 ==> layout(bytes) == Err::<
                (u16, int, int),
                FlpError,
            >(FlpError::Truncated)
            &&& tagged && bytes.len() >= 14 && length == 6 ==> match find_data(bytes, 14) {
                Err(e) => layout(bytes) == Err::<(u16, int, int), FlpError>(e),
                Ok((start, end)) => layout(bytes) matches Ok((ppq, from, to)) && from == start && to
                    == end && ppq == bytes[12] + 256 * bytes[13],
            }
        }),
{
}

/// Every 24 bytes are one note: its position and length stand in them as little-endian
/// numbers, then its key, a bit for portamento and its velocity.
pub proof fn records_are_notes(payload: Seq<u8>, i: int)
    requires
        0 <= i,
        24 * i + 24 <= payload.len(),
    ensures
        payload_notes(payload).len() == payload.len() / 24,
        0 <= i < payload_notes(payload).len(),
        ({
            let note = payload_notes(payload)[i];
            let at = 24 * i;
            &&& note.position == payload[at] + 256 * payload[at + 1] + 65536 * payload[at + 2]
                + 16777216 * payload[at + 3]
            &&& note.length == payload[at + 8] + 256 * payload[at + 9] + 65536 * payload[at + 10]
                + 16777216 * payload[at + 11]
            &&& note.key == payload[at + 12]
            &&& note.velocity == payload[at + 21]
            &&& note.portamento <==> payload[at + 19] / 8 % 2 == 1
        }),
{
    let record = record_at(payload, i);
    assert(record.len() == 24);
    assert forall|k: int| 0 <= k < 24 implies #[trigger] record[k] == payload[24 * i + k] by {}
    let flags = record[19];
    assert(flags & 0x08 != 0 <==> flags / 8 % 2 == 1) by (bit_vector);
}

/// A file is a score exactly when its format field is there and not zero.
pub proof fn format_field_tells_scores(bytes: Seq<u8>)
    ensures
        is_score(bytes) <==> bytes.len() >= 10 && (bytes[8] != 0 || bytes[9] != 0),
{
}

/// Text ends at the first zero and holds nothing behind it.
pub proof fn text_ends_at_the_first_zero(units: Seq<u16>, rest: Seq<u16>)
    requires
        forall|i: int| 0 <= i < units.len() ==> #[trigger] units[i] != 0,
    ensures
        until_zero(units + seq![0u16] + rest) == units,
        until_zero(units) == units,
    decreases units.len(),
{
    let all = units + seq![0u16] + rest;
    if units.len() > 0 {
        assert(units[0] != 0);
        let shorter = units.skip(1);
        assert forall|i: int| 0 <= i < shorter.len() implies #[trigger] shorter[i] != 0 by {
            assert(shorter[i] == units[i + 1]);
        }
        text_ends_at_the_first_zero(shorter, rest);
        assert(all.skip(1) =~= shorter + seq![0u16] + rest);
        assert(until_zero(all) =~= units);
        assert(until_zero(units) =~= units);
    } else {
        assert(all[0] == 0);
        assert(until_zero(all) =~= units);
        assert(until_zero(units) =~= units);
    }
}

/// Data whose end is no address is refused.
pub proof fn endless_data_is_refused(bytes: Seq<u8>, at: int, len: int)
    requires
        0 <= at,
        at + 8 <= bytes.len() <= usize::MAX,
        len == bytes[at + 4] + 256 * bytes[at + 5] + 65536 * bytes[at + 6] + 16777216 * bytes[at + 7],
        bytes.subrange(at, at + 4) == seq![0x46u8, 0x4c, 0x64, 0x74],
        at + 8 + len > usize::MAX,
    ensures
        find_data(bytes, at) == Err::<(int, int), FlpError>(FlpError::DataLengthOverflow),
{
}

/// The text of a name is what its bytes up to the first zero spell in UTF-16.
pub proof fn names_are_utf16_up_to_zero(payload: Seq<u8>, n: nat)
    requires
        2 * n <= payload.len(),
        forall|i: int|
            0 <= i < n ==> (#[trigger] payload[2 * i] != 0 || payload[2 * i + 1] != 0),
        payload.len() < 2 * n + 2 || (payload[2 * (n as int)] == 0 && payload[2 * (n as int) + 1] == 0),
    ensures
        fl_text(payload) == utf16_lossy(
            Seq::new(n, |i: int| (payload[2 * i] + 256 * payload[2 * i + 1]) as u16),
        ),
{
    let units = Seq::new(n, |i: int| (payload[2 * i] + 256 * payload[2 * i + 1]) as u16);
    let all = text_units(payload);
    assert forall|i: int| 0 <= i < n implies #[trigger] units[i] != 0 by {
        assert(payload[2 * i] != 0 || payload[2 * i + 1] != 0);
    }
    if payload.len() < 2 * n + 2 {
        assert(all =~= units);
        text_ends_at_the_first_zero(units, seq![]);
    } else {
        let rest = all.skip(n as int + 1);
        assert(all =~= units + seq![0u16] + rest);
        text_ends_at_the_first_zero(units, rest);
    }
}

} // verus!
