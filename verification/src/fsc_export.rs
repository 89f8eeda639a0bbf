//! Turning a chart back into a score.

use crate::bytes::{le16, le32, FlpError};
use crate::chart::{lane, pitch_lane};
use crate::flp::{
    data_magic, find_data, header_magic, is_score, layout, payload_notes, record_at, record_note,
    FlNote, NOTE_RECORD_SIZE,
};
use crate::grouping::{role, written_total};
use crate::number::Real;
use crate::project::{fsc_project, score_pattern, ProjectView};
use crate::sort::{
    comes_before, orders, orders_is_reordering, reordered, reordering_keeps_items, sorted_order,
};
use crate::text::{format_count, grouped};
use crate::types::{
    default_mapping, ConversionPreset, Progress, Stats, OPPONENT_BASE_PITCH, PLAYER_BASE_PITCH,
};
use vstd::prelude::*;

verus! {

/// Ticks per quarter note of every score.
pub const FSC_PPQ: u16 = 96;

/// Format field of a score; that of a project is zero.
pub const FSC_FORMAT: u16 = 0x0010;

/// Velocity of every note.
pub const DEFAULT_VELOCITY: u8 = 0x64;

/// Release of every note.
pub const DEFAULT_RELEASE: u8 = 0x40;

/// Panning of every note: the centre.
pub const DEFAULT_PAN: u8 = 0x40;

/// Fine pitch of every note: no detuning.
pub const DEFAULT_FINE_PITCH: u8 = 0x78;

/// A number of a chart note, in the two readings that a score needs.
#[derive(Clone, Copy, Debug, PartialEq, Eq, Structural)]
pub struct NoteField {
    /// Milliseconds as ticks at the tempo of the chart; at least zero.
    pub ticks: u32,
    /// A lane number, cut off to a whole number from 0 to 255.
    pub lane: u8,
}

/// A section of the chart: per note its numbers, which are time, lane and tail.
#[derive(Clone, Debug, PartialEq, Eq)]
pub struct ScoreSection {
    pub must_hit_section: bool,
    pub notes: Vec<Vec<NoteField>>,
}

/// A section as mathematical values.
#[verifier::ext_equal]
pub struct ScoreSectionView {
    pub must_hit_section: bool,
    pub notes: Seq<Seq<NoteField>>,
}

impl View for ScoreSection {
    type V = ScoreSectionView;

    open spec fn view(&self) -> ScoreSectionView {
        ScoreSectionView {
            must_hit_section: self.must_hit_section,
            notes: self.notes@.map_values(|n: Vec<NoteField>| n@),
        }
    }
}

/// The views of some sections.
pub open spec fn score_section_views(sections: Seq<ScoreSection>) -> Seq<ScoreSectionView> {
    sections.map_values(|s: ScoreSection| s@)
}

/// The direction of a lane, and whether it is the player's. Lanes from four on
/// belong to the side that `mustHitSection` puts second.
pub open spec fn lane_side(data: u8, must_hit_section: bool) -> (u8, bool) {
    if data >= 4 {
        ((data - 4) as u8, !must_hit_section)
    } else {
        (data, must_hit_section)
    }
}

/// The pitch of a direction: the lowest of its side plus the direction, and the
/// lowest itself for directions that there are not.
pub open spec fn export_pitch(direction: u8, player: bool) -> u8 {
    let base = if player {
        PLAYER_BASE_PITCH
    } else {
        OPPONENT_BASE_PITCH
    };
    if direction < 4 {
        (base + direction) as u8
    } else {
        base
    }
}

/// The pitch of a lane.
pub fn lane_pitch(data: u8, must_hit_section: bool) -> (r: u8)
    ensures
        r == export_pitch(
            lane_side(data, must_hit_section).0,
            lane_side(data, must_hit_section).1,
        ),
{
    let (direction, player): (u8, bool) = if data >= 4 {
        (data - 4, !must_hit_section)
    } else {
        (data, must_hit_section)
    };
    let base: u8 = if player {
        PLAYER_BASE_PITCH
    } else {
        OPPONENT_BASE_PITCH
    };
    if direction < 4 {
        base + direction
    } else {
        base
    }
}

/// The ticks of a number of a note; zero where the number is missing.
pub open spec fn field_ticks(fields: Seq<NoteField>, i: int) -> u32 {
    if i < fields.len() {
        fields[i].ticks
    } else {
        0
    }
}

/// The lane of a note; zero where it is missing.
pub open spec fn field_lane(fields: Seq<NoteField>) -> u8 {
    if 1 < fields.len() {
        fields[1].lane
    } else {
        0
    }
}

/// The piano-roll note that a chart note becomes.
pub open spec fn exported_note(fields: Seq<NoteField>, must_hit_section: bool) -> FlNote {
    let (direction, player) = lane_side(field_lane(fields), must_hit_section);
    FlNote {
        position: field_ticks(fields, 0),
        length: field_ticks(fields, 2),
        key: export_pitch(direction, player),
        velocity: DEFAULT_VELOCITY,
        portamento: false,
    }
}

/// The notes that the first `n` notes of a section become; notes without any
/// number are left out.
pub open spec fn exported_section(section: ScoreSectionView, n: nat) -> Seq<FlNote>
    decreases n,
{
    if n == 0 {
        seq![]
    } else {
        let earlier = exported_section(section, (n - 1) as nat);
        let fields = section.notes[n - 1];
        if fields.len() == 0 {
            earlier
        } else {
            earlier.push(exported_note(fields, section.must_hit_section))
        }
    }
}

/// The notes that the first `n` sections become.
pub open spec fn exported_notes(sections: Seq<ScoreSectionView>, n: nat) -> Seq<FlNote>
    decreases n,
{
    if n == 0 {
        seq![]
    } else {
        exported_notes(sections, (n - 1) as nat) + exported_section(
            sections[n - 1],
            sections[n - 1].notes.len(),
        )
    }
}

/// The reports on the first `n` of `total` sections: one for each.
pub open spec fn section_reports(n: nat, total: nat) -> Seq<Progress> {
    Seq::new(n, |i: int| Progress::Notes { done: (i + 1) as usize, total: total as usize })
}

/// Appends the notes that a section becomes.
fn export_section(section: &ScoreSection, out: &mut Vec<FlNote>)
    ensures
        final(out)@ == old(out)@ + exported_section(section@, section@.notes.len()),
{
    assert(out@ =~= old(out)@ + exported_section(section@, 0));
    for i in 0..section.notes.len()
        invariant
            out@ == old(out)@ + exported_section(section@, i as nat),
    {
        let fields: &Vec<NoteField> = &section.notes[i];
        assert(section@.notes[i as int] == fields@);
        if fields.len() > 0 {
            let data: u8 = if 1 < fields.len() {
                fields[1].lane
            } else {
                0
            };
            let length: u32 = if 2 < fields.len() {
                fields[2].ticks
            } else {
                0
            };
            out.push(
                FlNote {
                    position: fields[0].ticks,
                    length,
                    key: lane_pitch(data, section.must_hit_section),
                    velocity: DEFAULT_VELOCITY,
                    portamento: false,
                },
            );
            assert(out@ =~= old(out)@ + exported_section(section@, (i + 1) as nat));
        }
    }
}

/// Turns the notes of a chart into piano-roll notes, in the order of the chart.
/// Progress reports go to `log`.
pub fn export_notes(sections: &Vec<ScoreSection>, log: &mut Vec<Progress>) -> (r: Vec<FlNote>)
    ensures
        r@ == exported_notes(score_section_views(sections@), sections@.len()),
        final(log)@ == old(log)@ + section_reports(sections@.len(), sections@.len()),
{
    let mut out: Vec<FlNote> = Vec::new();
    let total: usize = sections.len();
    assert(log@ =~= old(log)@ + section_reports(0, total as nat));
    for i in 0..total
        invariant
            total == sections@.len(),
            out@ == exported_notes(score_section_views(sections@), i as nat),
            log@ == old(log)@ + section_reports(i as nat, total as nat),
    {
        assert(score_section_views(sections@)[i as int] == sections@[i as int]@);
        export_section(&sections[i], &mut out);
        log.push(Progress::Notes { done: i + 1, total });
        assert(log@ =~= old(log)@ + section_reports((i + 1) as nat, total as nat));
    }
    out
}

/// The positions of some notes.
pub open spec fn positions(notes: Seq<FlNote>) -> Seq<u64> {
    notes.map_values(|n: FlNote| n.position as u64)
}

/// `sorted` holds the notes in the order of their positions; notes at the same
/// position keep their order.
pub open spec fn sorted_from(notes: Seq<FlNote>, sorted: Seq<FlNote>) -> bool {
    exists|order: Seq<usize>|
        #[trigger] orders(positions(notes), order, 0, notes.len() as int) && sorted == reordered(
            notes,
            order,
        )
}

/// Sorts notes by position.
pub fn sort_by_position(notes: &Vec<FlNote>) -> (r: Vec<FlNote>)
    ensures
        sorted_from(notes@, r@),
{
    let mut keys: Vec<u64> = Vec::with_capacity(notes.len());
    for i in 0..notes.len()
        invariant
            keys@ =~= positions(notes@).take(i as int),
    {
        keys.push(notes[i].position as u64);
    }
    assert(keys@ =~= positions(notes@));
    let order: Vec<usize> = sorted_order(&keys);
    let mut sorted: Vec<FlNote> = Vec::with_capacity(order.len());
    for i in 0..order.len()
        invariant
            keys@ == positions(notes@),
            orders(keys@, order@, 0, keys@.len() as int),
            sorted@ =~= reordered(notes@, order@).take(i as int),
    {
        assert(order@[i as int] < notes@.len());
        sorted.push(notes[order[i]]);
    }
    assert(sorted@ =~= reordered(notes@, order@));
    sorted
}

/// Sorting by position gives ascending positions and keeps every note.
pub proof fn sorting_keeps_notes(notes: Seq<FlNote>, sorted: Seq<FlNote>)
    requires
        sorted_from(notes, sorted),
    ensures
        sorted.len() == notes.len(),
        sorted.to_multiset() == notes.to_multiset(),
        forall|i: int, j: int|
            0 <= i < j < sorted.len() ==> (#[trigger] sorted[i]).position <= (
            #[trigger] sorted[j]).position,
{
    let order = choose|order: Seq<usize>|
        #[trigger] orders(positions(notes), order, 0, notes.len() as int) && sorted == reordered(
            notes,
            order,
        );
    orders_is_reordering(positions(notes), order);
    reordering_keeps_items(notes, order);
    assert forall|i: int, j: int| 0 <= i < j < sorted.len() implies (#[trigger] sorted[i]).position
        <= (#[trigger] sorted[j]).position by {
        assert(comes_before(positions(notes), order[i], order[j]));
    }
}

/// The two bytes of a 16-bit number, lowest first.
pub open spec fn le16_bytes(v: u16) -> Seq<u8> {
    seq![(v % 256) as u8, (v / 256) as u8]
}

/// The four bytes of a 32-bit number, lowest first.
pub open spec fn le32_bytes(v: u32) -> Seq<u8> {
    seq![
        (v % 256) as u8,
        (v / 0x100 % 256) as u8,
        (v / 0x1_0000 % 256) as u8,
        (v / 0x100_0000) as u8,
    ]
}

/// The record of a note: position at 0, length at 8, pitch at 12, then fine
/// pitch, release, no flags, panning, velocity and no modulation.
pub open spec fn note_record(note: FlNote) -> Seq<u8> {
    le32_bytes(note.position) + seq![0u8, 0, 0, 0] + le32_bytes(note.length) + seq![
        note.key,
        0,
        0,
        0,
        DEFAULT_FINE_PITCH,
        0,
        DEFAULT_RELEASE,
        0,
        DEFAULT_PAN,
        note.velocity,
        0,
        0,
    ]
}

/// The records of some notes, one after the other.
pub open spec fn note_records(notes: Seq<FlNote>) -> Seq<u8>
    decreases notes.len(),
{
    if notes.len() == 0 {
        seq![]
    } else {
        note_records(notes.drop_last()) + note_record(notes.last())
    }
}

/// The header of every score.
pub open spec fn score_header() -> Seq<u8> {
    header_magic() + le32_bytes(6) + le16_bytes(FSC_FORMAT) + le16_bytes(0) + le16_bytes(FSC_PPQ)
}

/// The length that the data chunk gives for so many notes, kept to 32 bits.
pub open spec fn data_length(count: nat) -> u32 {
    ((NOTE_RECORD_SIZE as nat * count) % 0x1_0000_0000) as u32
}

/// The score file of some notes.
pub open spec fn score_file(notes: Seq<FlNote>) -> Seq<u8> {
    score_header() + data_magic() + le32_bytes(data_length(notes.len())) + note_records(notes)
}

/// Appends a 16-bit number.
fn put_u16(out: &mut Vec<u8>, v: u16)
    ensures
        final(out)@ == old(out)@ + le16_bytes(v),
{
    out.push((v % 256) as u8);
    out.push((v / 256) as u8);
    assert(out@ =~= old(out)@ + le16_bytes(v));
}

/// Appends a 32-bit number.
fn put_u32(out: &mut Vec<u8>, v: u32)
    ensures
        final(out)@ == old(out)@ + le32_bytes(v),
{
    out.push((v % 256) as u8);
    out.push((v / 0x100 % 256) as u8);
    out.push((v / 0x1_0000 % 256) as u8);
    out.push((v / 0x100_0000) as u8);
    assert(out@ =~= old(out)@ + le32_bytes(v));
}

/// Appends four bytes.
fn put_tag(out: &mut Vec<u8>, a: u8, b: u8, c: u8, d: u8)
    ensures
        final(out)@ == old(out)@ + seq![a, b, c, d],
{
    out.push(a);
    out.push(b);
    out.push(c);
    out.push(d);
    assert(out@ =~= old(out)@ + seq![a, b, c, d]);
}

/// Appends the record of a note.
fn put_record(out: &mut Vec<u8>, note: &FlNote)
    ensures
        final(out)@ == old(out)@ + note_record(*note),
{
    put_u32(out, note.position);
    put_tag(out, 0, 0, 0, 0);
    put_u32(out, note.length);
    put_tag(out, note.key, 0, 0, 0);
    put_tag(out, DEFAULT_FINE_PITCH, 0, DEFAULT_RELEASE, 0);
    put_tag(out, DEFAULT_PAN, note.velocity, 0, 0);
    assert(out@ =~= old(out)@ + note_record(*note));
}

/// Computes the length field of the data chunk.
fn length_field(count: usize) -> (r: u32)
    ensures
        r == data_length(count as nat),
{
    let low: u64 = count as u64 % 0x1_0000_0000;
    proof {
        vstd::arithmetic::div_mod::lemma_mul_mod_noop(24, count as int, 0x1_0000_0000);
        vstd::arithmetic::div_mod::lemma_mul_mod_noop(24, low as int, 0x1_0000_0000);
    }
    (24 * low % 0x1_0000_0000) as u32
}

/// Writes a score file.
pub fn write_score(notes: &Vec<FlNote>) -> (r: Vec<u8>)
    ensures
        r@ == score_file(notes@),
{
    let mut out: Vec<u8> = Vec::new();
    put_tag(&mut out, 0x46, 0x4c, 0x68, 0x64);
    put_u32(&mut out, 6);
    put_u16(&mut out, FSC_FORMAT);
    put_u16(&mut out, 0);
    put_u16(&mut out, FSC_PPQ);
    assert(out@ =~= score_header());
    put_tag(&mut out, 0x46, 0x4c, 0x64, 0x74);
    put_u32(&mut out, length_field(notes.len()));
    let ghost head = out@;
    assert(head =~= score_header() + data_magic() + le32_bytes(data_length(notes@.len())));
    assert(notes@.take(0) =~= seq![]);
    assert(out@ =~= head + note_records(notes@.take(0)));
    for i in 0..notes.len()
        invariant
            out@ == head + note_records(notes@.take(i as int)),
    {
        let ghost before = out@;
        put_record(&mut out, &notes[i]);
        proof {
            let longer = notes@.take(i + 1);
            assert(longer.drop_last() =~= notes@.take(i as int));
            assert(out@ =~= head + note_records(longer));
        }
    }
    assert(notes@.take(notes@.len() as int) =~= notes@);
    out
}

/// Why a chart cannot be turned into a score.
#[derive(Clone, Copy, Debug, PartialEq, Eq, Structural)]
pub enum ExportError {
    /// The tempo of the chart is not a finite positive number.
    InvalidBpm,
}

/// Turns a chart into a score: gives the bytes of the file and what is told of
/// the conversion; the duration is for the caller to set. Progress reports go to
/// `log`. The tempo has to be finite and positive.
pub fn convert_json_to_fsc(bpm: Real, sections: &Vec<ScoreSection>, log: &mut Vec<Progress>) -> (r: Result<
    (Vec<u8>, Stats),
    ExportError,
>)
    ensures
        !bpm.spec_is_valid_bpm() ==> r == Err::<(Vec<u8>, Stats), ExportError>(
            ExportError::InvalidBpm,
        ) && final(log)@ == old(log)@,
        bpm.spec_is_valid_bpm() ==> {
            let notes = exported_notes(score_section_views(sections@), sections@.len());
            &&& r matches Ok((file, stats))
            &&& exists|sorted: Seq<FlNote>| #[trigger]
                sorted_from(notes, sorted) && file@ == score_file(sorted)
            &&& stats.notes@ == grouped(notes.len())
            &&& stats.sections@ == grouped(sections@.len())
            &&& stats.time == (Real { bits: 0 })
            &&& stats.files == 1
            &&& stats.warnings@ == Seq::<char>::empty()
            &&& final(log)@ == old(log)@.push(Progress::Stage("Converting notes to FSC records"))
                + section_reports(sections@.len(), sections@.len()).push(
                Progress::Stage("Writing FSC"),
            )
        },
{
    if !bpm.is_valid_bpm() {
        return Err(ExportError::InvalidBpm);
    }
    log.push(Progress::Stage("Converting notes to FSC records"));
    let ghost begun = log@;
    let notes: Vec<FlNote> = export_notes(sections, log);
    let sorted: Vec<FlNote> = sort_by_position(&notes);
    log.push(Progress::Stage("Writing FSC"));
    assert(log@ =~= begun + section_reports(sections@.len(), sections@.len()).push(
        Progress::Stage("Writing FSC"),
    ));
    let file: Vec<u8> = write_score(&sorted);
    let stats: Stats = Stats {
        notes: format_count(notes.len() as u64),
        sections: format_count(sections.len() as u64),
        time: Real::zero(),
        files: 1,
        warnings: String::new(),
    };
    Ok((file, stats))
}

/// The lane formula is undone: from the lane number of a note its direction and
/// side are found again.
pub proof fn lane_side_undoes_lane(direction: u8, player: bool, must_hit_section: bool)
    requires
        direction < 4,
    ensures
        lane_side(lane(direction, player, must_hit_section), must_hit_section) == (direction, player),
{
}

/// The other way round, the lane formula gives back any lane number from its
/// direction and side.
pub proof fn lane_undoes_lane_side(data: u8, must_hit_section: bool)
    ensures
        lane(
            lane_side(data, must_hit_section).0,
            lane_side(data, must_hit_section).1,
            must_hit_section,
        ) == data,
{
}

/// The pitches of a score mean, in the default layout, the direction and side that
/// they were chosen for.
pub proof fn export_pitch_matches_default_mapping(direction: u8, player: bool)
    requires
        direction < 4,
    ensures
        pitch_lane(default_mapping(), export_pitch(direction, player)) == Some((direction, player)),
{
    reveal_with_fuel(pitch_lane, 9);
    let m = default_mapping();
    assert(m.len() == 8);
    let m7 = m.drop_last();
    let m6 = m7.drop_last();
    let m5 = m6.drop_last();
    let m4 = m5.drop_last();
    let m3 = m4.drop_last();
    let m2 = m3.drop_last();
    let m1 = m2.drop_last();
    assert(m.last() == m[7] && m7.last() == m[6] && m6.last() == m[5] && m5.last() == m[4]);
    assert(m4.last() == m[3] && m3.last() == m[2] && m2.last() == m[1] && m1.last() == m[0]);
}

proof fn lemma_records_length(notes: Seq<FlNote>)
    ensures
        note_records(notes).len() == NOTE_RECORD_SIZE * notes.len(),
    decreases notes.len(),
{
    if notes.len() > 0 {
        lemma_records_length(notes.drop_last());
    }
}

/// The record with index `i` among the records of some notes is that of note `i`.
proof fn lemma_record_at(notes: Seq<FlNote>, i: int)
    requires
        0 <= i < notes.len(),
    ensures
        record_at(note_records(notes), i) == note_record(notes[i]),
    decreases notes.len(),
{
    let before = notes.drop_last();
    lemma_records_length(notes);
    lemma_records_length(before);
    if i == notes.len() - 1 {
        assert(record_at(note_records(notes), i) =~= note_record(notes[i]));
    } else {
        lemma_record_at(before, i);
        assert(record_at(note_records(notes), i) =~= record_at(note_records(before), i));
    }
}

/// A number is read back from its four bytes.
proof fn lemma_le32_bytes(v: u32)
    ensures
        le32_bytes(v).len() == 4,
        le32(le32_bytes(v), 0) == v,
{
}

/// A record gives its note back, where that has no portamento.
proof fn lemma_record_note(note: FlNote)
    requires
        !note.portamento,
    ensures
        record_note(note_record(note)) == note,
{
    let record = note_record(note);
    let position = le32_bytes(note.position);
    let length = le32_bytes(note.length);
    lemma_le32_bytes(note.position);
    lemma_le32_bytes(note.length);
    assert(0u8 & 0x08 == 0) by (bit_vector);
    assert(record[0] == position[0] && record[1] == position[1] && record[2] == position[2] && record[3]
        == position[3]);
    assert(record[8] == length[0] && record[9] == length[1] && record[10] == length[2] && record[11]
        == length[3]);
    assert(record[12] == note.key && record[19] == 0 && record[21] == note.velocity);
}

/// The eighteen bytes that every score file starts with.
pub open spec fn score_start() -> Seq<u8> {
    seq![
        0x46u8, 0x4c, 0x68, 0x64, 6, 0, 0, 0, 0x10, 0, 0, 0, 96, 0, 0x46, 0x4c, 0x64, 0x74
    ]
}

proof fn lemma_score_start()
    ensures
        score_header() + data_magic() == score_start(),
{
    assert(le32_bytes(6) =~= seq![6u8, 0, 0, 0]);
    assert(le16_bytes(0x10) =~= seq![0x10u8, 0]);
    assert(le16_bytes(0) =~= seq![0u8, 0]);
    assert(le16_bytes(96) =~= seq![96u8, 0]);
    assert(score_header() + data_magic() =~= score_start());
}

/// What the bytes before the records of a score say.
proof fn lemma_score_head(length: u32)
    ensures
        ({
            let head = score_header() + data_magic() + le32_bytes(length);
            &&& head.len() == 22
            &&& head.take(4) == header_magic()
            &&& le32(head, 4) == 6
            &&& le16(head, 8) == FSC_FORMAT
            &&& le16(head, 12) == FSC_PPQ
            &&& head.subrange(14, 18) == data_magic()
            &&& le32(head, 18) == length
        }),
{
    let head = score_header() + data_magic() + le32_bytes(length);
    lemma_score_start();
    assert(head =~= score_start() + le32_bytes(length));
    assert(head.take(4) =~= header_magic());
    assert(head.subrange(14, 18) =~= data_magic());
    lemma_le32_bytes(length);
    let bytes = le32_bytes(length);
    assert(head[18] == bytes[0] && head[19] == bytes[1] && head[20] == bytes[2] && head[21]
        == bytes[3]);
    assert(le32(head, 18) == le32(bytes, 0));
}

/// How a file is laid out that consists of a header, one data chunk head and so
/// many bytes as that says.
proof fn lemma_layout_of(head: Seq<u8>, body: Seq<u8>)
    requires
        head.len() == 22,
        head.take(4) == header_magic(),
        le32(head, 4) == 6,
        head.subrange(14, 18) == data_magic(),
        le32(head, 18) == body.len(),
        22 + body.len() <= usize::MAX,
    ensures
        layout(head + body) == Ok::<(u16, int, int), FlpError>(
            (le16(head, 12), 22, 22int + body.len()),
        ),
        le16(head + body, 8) == le16(head, 8),
        (head + body).subrange(22, 22int + body.len()) == body,
{
    let file = head + body;
    assert(file.take(4) =~= head.take(4));
    assert(file.subrange(14, 18) =~= head.subrange(14, 18));
    assert(le32(file, 4) == le32(head, 4));
    assert(le32(file, 18) == le32(head, 18));
    assert(find_data(file, 14) == Ok::<(int, int), FlpError>((22, 22int + body.len())));
    assert(file.subrange(22, 22int + body.len()) =~= body);
}

/// The records give their notes back.
proof fn lemma_records_notes(notes: Seq<FlNote>)
    requires
        forall|i: int| 0 <= i < notes.len() ==> !(#[trigger] notes[i]).portamento,
    ensures
        payload_notes(note_records(notes)) == notes,
        note_records(notes).len() % (NOTE_RECORD_SIZE as nat) == 0,
{
    let payload = note_records(notes);
    lemma_records_length(notes);
    assert(payload_notes(payload).len() == notes.len());
    assert forall|i: int| 0 <= i < notes.len() implies payload_notes(payload)[i] == #[trigger] notes[i] by {
        lemma_record_at(notes, i);
        lemma_record_note(notes[i]);
    }
    assert(payload_notes(payload) =~= notes);
}

/// A score that was written is read back as it was: as a score, with the notes
/// that were written, in the same order, and 96 ticks per quarter note.
///
/// The notes have no portamento, as all notes that come from a chart. Their
/// records have to fit into the 32-bit length of the data chunk, and the file
/// into the address space.
pub proof fn written_score_is_read_back(notes: Seq<FlNote>)
    requires
        forall|i: int| 0 <= i < notes.len() ==> !(#[trigger] notes[i]).portamento,
        NOTE_RECORD_SIZE * notes.len() <= u32::MAX,
        score_file(notes).len() <= usize::MAX,
    ensures
        is_score(score_file(notes)),
        fsc_project(score_file(notes)) == Ok::<ProjectView, FlpError>(
            ProjectView {
                ppq: FSC_PPQ,
                tempo: None,
                notes,
                patterns: seq![score_pattern(notes.len())],
            },
        ),
{
    let length = data_length(notes.len());
    let head = score_header() + data_magic() + le32_bytes(length);
    lemma_score_head(length);
    lemma_records_length(notes);
    lemma_records_notes(notes);
    lemma_layout_of(head, note_records(notes));
}

proof fn lemma_section_has_no_portamento(section: ScoreSectionView, n: nat)
    ensures
        forall|i: int|
            0 <= i < exported_section(section, n).len() ==> !(#[trigger] exported_section(
                section,
                n,
            )[i]).portamento,
    decreases n,
{
    if n > 0 {
        lemma_section_has_no_portamento(section, (n - 1) as nat);
        let earlier = exported_section(section, (n - 1) as nat);
        assert forall|i: int| 0 <= i < exported_section(section, n).len() implies !(
        #[trigger] exported_section(section, n)[i]).portamento by {
            if i < earlier.len() {
                assert(exported_section(section, n)[i] == earlier[i]);
            }
        }
    }
}

/// No note that comes from a chart has portamento.
pub proof fn exported_notes_have_no_portamento(sections: Seq<ScoreSectionView>, n: nat)
    ensures
        forall|i: int|
            0 <= i < exported_notes(sections, n).len() ==> !(#[trigger] exported_notes(
                sections,
                n,
            )[i]).portamento,
    decreases n,
{
    if n > 0 {
        exported_notes_have_no_portamento(sections, (n - 1) as nat);
        let earlier = exported_notes(sections, (n - 1) as nat);
        let section = sections[n - 1];
        let added = exported_section(section, section.notes.len());
        lemma_section_has_no_portamento(section, section.notes.len());
        assert forall|i: int| 0 <= i < exported_notes(sections, n).len() implies !(
        #[trigger] exported_notes(sections, n)[i]).portamento by {
            if i < earlier.len() {
                assert(exported_notes(sections, n)[i] == earlier[i]);
            } else {
                assert(exported_notes(sections, n)[i] == added[i - earlier.len()]);
            }
        }
    }
}

/// What a chart is turned into is read back note for note: the score holds every
/// note of the chart, in the order of positions.
///
/// The records have to fit into the 32-bit length of the data chunk, and the file
/// into the address space.
pub proof fn converted_chart_is_read_back(sections: Seq<ScoreSectionView>, sorted: Seq<FlNote>)
    requires
        sorted_from(exported_notes(sections, sections.len()), sorted),
        NOTE_RECORD_SIZE * sorted.len() <= u32::MAX,
        score_file(sorted).len() <= usize::MAX,
    ensures
        is_score(score_file(sorted)),
        fsc_project(score_file(sorted)) matches Ok(project) && project.ppq == FSC_PPQ
            && project.notes == sorted && project.notes.to_multiset() == exported_notes(
            sections,
            sections.len(),
        ).to_multiset(),
{
    let notes = exported_notes(sections, sections.len());
    sorting_keeps_notes(notes, sorted);
    exported_notes_have_no_portamento(sections, sections.len());
    let order = choose|order: Seq<usize>|
        #[trigger] orders(positions(notes), order, 0, notes.len() as int) && sorted == reordered(
            notes,
            order,
        );
    assert forall|i: int| 0 <= i < sorted.len() implies !(#[trigger] sorted[i]).portamento by {
        assert(order[i] < notes.len());
        assert(sorted[i] == notes[order[i] as int]);
    }
    written_score_is_read_back(sorted);
}

/// A lane of a chart is found again from its pitch in the score: in the default
/// layout the pitch stands for the direction and side of the lane, and from those
/// the lane number is computed again.
pub proof fn lane_survives_export(data: u8, must_hit_section: bool)
    requires
        data < 8,
    ensures
        ({
            let (direction, player) = lane_side(data, must_hit_section);
            &&& pitch_lane(default_mapping(), export_pitch(direction, player)) == Some(
                (direction, player),
            )
            &&& lane(direction, player, must_hit_section) == data
        }),
{
    let (direction, player) = lane_side(data, must_hit_section);
    export_pitch_matches_default_mapping(direction, player);
    lane_undoes_lane_side(data, must_hit_section);
}

/// The settings keep the default layout and the default alt marker.
pub open spec fn default_layout(preset: ConversionPreset) -> bool {
    preset.mapping@ == default_mapping() && preset.alt_marker_pitch == 58
}

proof fn lemma_exported_pitch_has_lane(direction: u8, player: bool, preset: ConversionPreset)
    requires
        default_layout(preset),
    ensures
        role(preset, export_pitch(direction, player)) is Lane,
{
    if direction < 4 {
        export_pitch_matches_default_mapping(direction, player);
    } else {
        export_pitch_matches_default_mapping(0, player);
    }
}

proof fn lemma_section_is_charted(section: ScoreSectionView, n: nat, preset: ConversionPreset)
    requires
        default_layout(preset),
    ensures
        written_total(exported_section(section, n), preset) == exported_section(section, n).len(),
    decreases n,
{
    if n > 0 {
        lemma_section_is_charted(section, (n - 1) as nat, preset);
        let fields = section.notes[n - 1];
        if fields.len() > 0 {
            let (direction, player) = lane_side(field_lane(fields), section.must_hit_section);
            lemma_exported_pitch_has_lane(direction, player, preset);
            assert(exported_section(section, n).drop_last() =~= exported_section(
                section,
                (n - 1) as nat,
            ));
        }
    }
}

proof fn lemma_written_total_add(a: Seq<FlNote>, b: Seq<FlNote>, preset: ConversionPreset)
    ensures
        written_total(a + b, preset) == written_total(a, preset) + written_total(b, preset),
    decreases b.len(),
{
    if b.len() == 0 {
        assert(a + b =~= a);
    } else {
        lemma_written_total_add(a, b.drop_last(), preset);
        assert((a + b).drop_last() =~= a + b.drop_last());
    }
}

/// Every note of a score that comes from a chart becomes a chart note again, in the
/// default layout: none is taken for a marker, and none is left out.
pub proof fn exported_notes_become_chart_notes(
    sections: Seq<ScoreSectionView>,
    n: nat,
    preset: ConversionPreset,
)
    requires
        default_layout(preset),
    ensures
        written_total(exported_notes(sections, n), preset) == exported_notes(sections, n).len(),
    decreases n,
{
    if n > 0 {
        exported_notes_become_chart_notes(sections, (n - 1) as nat, preset);
        let section = sections[n - 1];
        lemma_section_is_charted(section, section.notes.len(), preset);
        lemma_written_total_add(
            exported_notes(sections, (n - 1) as nat),
            exported_section(section, section.notes.len()),
            preset,
        );
    }
}

/// A chart note of at least one number is exported with the numbers it has: at the ticks
/// of the first, as long as the ticks of the third, whatever its lane and side; without
/// a third number it has no length. Lanes 0 to 3 are the four directions on the side
/// that `mustHitSection` puts first and lanes 4 to 7 those on the other, from key 48 on
/// for the player and from key 60 on for the opponent.
pub proof fn exported_notes_keep_their_numbers(fields: Seq<NoteField>, must_hit_section: bool)
    requires
        fields.len() > 0,
    ensures
        ({
            let note = exported_note(fields, must_hit_section);
            let data = if fields.len() >= 2 {
                fields[1].lane as int
            } else {
                0
            };
            &&& note.position == fields[0].ticks
            &&& note.length == if fields.len() >= 3 {
                fields[2].ticks
            } else {
                0
            }
            &&& data < 4 ==> note.key == data + if must_hit_section {
                48int
            } else {
                60int
            }
            &&& 4 <= data < 8 ==> note.key == data - 4 + if must_hit_section {
                60int
            } else {
                48int
            }
            &&& data >= 8 ==> note.key == if must_hit_section {
                60int
            } else {
                48int
            }
            &&& note.velocity == 100
            &&& !note.portamento
        }),
{
}

proof fn lemma_section_prefix(section: ScoreSectionView, n: nat)
    requires
        n <= section.notes.len(),
    ensures
        exported_section(section, n) == section.notes.take(n as int).filter(
            |fields: Seq<NoteField>| fields.len() > 0,
        ).map_values(|fields: Seq<NoteField>| exported_note(fields, section.must_hit_section)),
    decreases n,
{
    reveal(Seq::filter);
    let kept = section.notes.take(n as int).filter(|fields: Seq<NoteField>| fields.len() > 0);
    let made = kept.map_values(
        |fields: Seq<NoteField>| exported_note(fields, section.must_hit_section),
    );
    if n > 0 {
        lemma_section_prefix(section, (n - 1) as nat);
        assert(section.notes.take(n as int).drop_last() =~= section.notes.take(n - 1));
        assert(exported_section(section, n) =~= made);
    } else {
        assert(exported_section(section, n) =~= made);
    }
}

/// A section is exported note for note, in order; only entries without numbers are left
/// out.
pub proof fn sections_are_exported_note_for_note(section: ScoreSectionView)
    ensures
        exported_section(section, section.notes.len()) == section.notes.filter(
            |fields: Seq<NoteField>| fields.len() > 0,
        ).map_values(|fields: Seq<NoteField>| exported_note(fields, section.must_hit_section)),
{
    lemma_section_prefix(section, section.notes.len());
    assert(section.notes.take(section.notes.len() as int) =~= section.notes);
}

proof fn lemma_export_of_prefix(a: Seq<ScoreSectionView>, b: Seq<ScoreSectionView>, n: nat)
    requires
        n <= a.len(),
    ensures
        exported_notes(a + b, n) == exported_notes(a, n),
    decreases n,
{
    if n > 0 {
        lemma_export_of_prefix(a, b, (n - 1) as nat);
    }
}

proof fn lemma_export_of_joined(a: Seq<ScoreSectionView>, b: Seq<ScoreSectionView>, n: nat)
    requires
        n <= b.len(),
    ensures
        exported_notes(a + b, a.len() + n) == exported_notes(a, a.len()) + exported_notes(b, n),
    decreases n,
{
    if n == 0 {
        lemma_export_of_prefix(a, b, a.len());
        assert(exported_notes(a, a.len()) + exported_notes(b, n) =~= exported_notes(a, a.len()));
    } else {
        lemma_export_of_joined(a, b, (n - 1) as nat);
        assert((a + b)[a.len() + n - 1] == b[n - 1]);
        assert(exported_notes(a + b, a.len() + n) =~= exported_notes(a, a.len()) + exported_notes(b, n));
    }
}

/// The notes of a chart are those of its sections one after the other: exporting two
/// charts joined gives the notes of the first and then those of the second, and exporting
/// one section gives its notes.
pub proof fn export_of_joined_charts(
    a: Seq<ScoreSectionView>,
    b: Seq<ScoreSectionView>,
    section: ScoreSectionView,
)
    ensures
        exported_notes(a + b, a.len() + b.len()) == exported_notes(a, a.len()) + exported_notes(
            b,
            b.len(),
        ),
        exported_notes(seq![section], 1) == section.notes.filter(
            |fields: Seq<NoteField>| fields.len() > 0,
        ).map_values(|fields: Seq<NoteField>| exported_note(fields, section.must_hit_section)),
{
    lemma_export_of_joined(a, b, b.len());
    sections_are_exported_note_for_note(section);
    reveal_with_fuel(exported_notes, 2);
    assert(exported_notes(seq![section], 1) =~= exported_section(section, section.notes.len()));
}

proof fn lemma_entry_in_section(section: ScoreSectionView, n: nat, j: int)
    requires
        0 <= j < n <= section.notes.len(),
        section.notes[j].len() > 0,
    ensures
        exported_section(section, n).contains(
            exported_note(section.notes[j], section.must_hit_section),
        ),
    decreases n,
{
    let note = exported_note(section.notes[j], section.must_hit_section);
    let made = exported_section(section, n);
    if j < n - 1 {
        lemma_entry_in_section(section, (n - 1) as nat, j);
        let earlier = exported_section(section, (n - 1) as nat);
        let m = choose|m: int| 0 <= m < earlier.len() && earlier[m] == note;
        assert(made[m] == note);
    } else {
        assert(made[made.len() - 1] == note);
    }
}

/// Every entry with numbers, in whatever section, is among the exported notes.
pub proof fn every_entry_is_exported(sections: Seq<ScoreSectionView>, n: nat, i: int, j: int)
    requires
        0 <= i < n <= sections.len(),
        0 <= j < sections[i].notes.len(),
        sections[i].notes[j].len() > 0,
    ensures
        exported_notes(sections, n).contains(
            exported_note(sections[i].notes[j], sections[i].must_hit_section),
        ),
    decreases n,
{
    let note = exported_note(sections[i].notes[j], sections[i].must_hit_section);
    let made = exported_notes(sections, n);
    let earlier = exported_notes(sections, (n - 1) as nat);
    if i < n - 1 {
        every_entry_is_exported(sections, (n - 1) as nat, i, j);
        let m = choose|m: int| 0 <= m < earlier.len() && earlier[m] == note;
        assert(made[m] == note);
    } else {
        let held = exported_section(sections[i], sections[i].notes.len());
        lemma_entry_in_section(sections[i], sections[i].notes.len(), j);
        let m = choose|m: int| 0 <= m < held.len() && held[m] == note;
        assert(made[earlier.len() + m] == note);
    }
}

/// Every entry of a chart that was written as a score is read back from it: at the ticks
/// of its first number and as long as the ticks of its third.
pub proof fn every_entry_is_read_back(
    sections: Seq<ScoreSectionView>,
    sorted: Seq<FlNote>,
    i: int,
    j: int,
)
    requires
        sorted_from(exported_notes(sections, sections.len()), sorted),
        24 * sorted.len() <= u32::MAX,
        score_file(sorted).len() <= usize::MAX,
        0 <= i < sections.len(),
        0 <= j < sections[i].notes.len(),
        sections[i].notes[j].len() >= 3,
        sections[i].notes[j][1].lane < 8,
    ensures
        ({
            let fields = sections[i].notes[j];
            let first = fields[1].lane < 4;
            &&& fsc_project(score_file(sorted)) matches Ok(project)
            &&& project.notes.contains(
                FlNote {
                    position: fields[0].ticks,
                    length: fields[2].ticks,
                    key: (fields[1].lane % 4 + if first == sections[i].must_hit_section {
                        48int
                    } else {
                        60int
                    }) as u8,
                    velocity: 100,
                    portamento: false,
                },
            )
        }),
{
    broadcast use vstd::seq_lib::group_to_multiset_ensures;

    let notes = exported_notes(sections, sections.len());
    converted_chart_is_read_back(sections, sorted);
    every_entry_is_exported(sections, sections.len(), i, j);
    exported_notes_keep_their_numbers(sections[i].notes[j], sections[i].must_hit_section);
    sorting_keeps_notes(notes, sorted);
    let note = exported_note(sections[i].notes[j], sections[i].must_hit_section);
    assert(notes.to_multiset().count(note) > 0);
    assert(sorted.to_multiset().count(note) > 0);
    assert(sorted.contains(note));
}

/// Notes are sorted by position and by nothing else: two at one position stay in their
/// order.
pub proof fn sorting_by_position_is_stable(notes: Seq<FlNote>, sorted: Seq<FlNote>)
    requires
        sorted_from(notes, sorted),
    ensures
        exists|order: Seq<usize>|
            {
                &&& order.len() == notes.len()
                &&& order.no_duplicates()
                &&& sorted.len() == notes.len()
                &&& forall|i: int|
                    0 <= i < sorted.len() ==> #[trigger] order[i] < notes.len() && sorted[i]
                        == notes[order[i] as int]
                &&& forall|i: int, j: int|
                    #![trigger order[i], order[j]]
                    0 <= i < j < sorted.len() ==> sorted[i].position < sorted[j].position || (
                    sorted[i].position == sorted[j].position && order[i] < order[j])
            },
{
    let order = choose|order: Seq<usize>|
        #[trigger] orders(positions(notes), order, 0, notes.len() as int) && sorted == reordered(
            notes,
            order,
        );
    orders_is_reordering(positions(notes), order);
    assert forall|i: int, j: int|
        #![trigger order[i], order[j]]
        0 <= i < j < sorted.len() implies sorted[i].position < sorted[j].position || (
    sorted[i].position == sorted[j].position && order[i] < order[j]) by {
        assert(comes_before(positions(notes), order[i], order[j]));
    }
}

/// A score file starts with the tag of its header, the length of the header, the format
/// of scores and 96 ticks per quarter note; then come the tag of its data and one record
/// of 24 bytes for each note.
pub proof fn score_files_have_their_layout(notes: Seq<FlNote>)
    requires
        24 * notes.len() <= u32::MAX,
    ensures
        score_file(notes).take(18) == seq![
            0x46u8, 0x4c, 0x68, 0x64, 6, 0, 0, 0, 0x10, 0, 0, 0, 96, 0, 0x46, 0x4c, 0x64, 0x74
        ],
        score_file(notes).len() == 22 + 24 * notes.len(),
        le32(score_file(notes), 18) == 24 * notes.len(),
{
    let length = data_length(notes.len());
    let file = score_file(notes);
    lemma_score_start();
    lemma_records_length(notes);
    assert(file =~= score_start() + (le32_bytes(length) + note_records(notes)));
    assert(file.take(18) =~= score_start());
    lemma_le32_bytes(length);
    let bytes = le32_bytes(length);
    assert(file[18] == bytes[0] && file[19] == bytes[1] && file[20] == bytes[2] && file[21]
        == bytes[3]);
    assert(le32(file, 18) == le32(bytes, 0));
    assert(length == 24 * notes.len());
}

/// The record of a note holds its position and length as little-endian numbers, its key
/// and velocity, and otherwise the same bytes for every note.
pub proof fn records_hold_the_note(note: FlNote)
    ensures
        note_record(note).len() == 24,
        note_record(note)[0] + 256 * note_record(note)[1] + 0x1_0000 * note_record(note)[2]
            + 0x100_0000 * note_record(note)[3] == note.position,
        note_record(note)[8] + 256 * note_record(note)[9] + 0x1_0000 * note_record(note)[10]
            + 0x100_0000 * note_record(note)[11] == note.length,
        note_record(note)[12] == note.key,
        note_record(note)[21] == note.velocity,
        note_record(note).subrange(4, 8) == seq![0u8, 0, 0, 0],
        note_record(note).subrange(13, 21) == seq![0u8, 0, 0, 0x78, 0, 0x40, 0, 0x40],
        note_record(note).subrange(22, 24) == seq![0u8, 0],
{
    assert(note_record(note).subrange(4, 8) =~= seq![0u8, 0, 0, 0]);
    assert(note_record(note).subrange(13, 21) =~= seq![0u8, 0, 0, 0x78, 0, 0x40, 0, 0x40]);
    assert(note_record(note).subrange(22, 24) =~= seq![0u8, 0]);
}

/// One report for each section, with the sections done so far.
pub proof fn each_section_is_reported(n: nat, total: nat, i: int)
    requires
        0 <= i < n <= total <= usize::MAX,
    ensures
        section_reports(n, total).len() == n,
        section_reports(n, total)[i] == (Progress::Notes {
            done: (i + 1) as usize,
            total: total as usize,
        }),
{
}

/// What is seen of the sections of a chart is everything they hold.
pub proof fn views_show_whole_score_sections(sections: Seq<ScoreSection>, i: int, j: int)
    requires
        0 <= i < sections.len(),
        0 <= j < sections[i].notes@.len(),
    ensures
        score_section_views(sections).len() == sections.len(),
        score_section_views(sections)[i].must_hit_section == sections[i].must_hit_section,
        score_section_views(sections)[i].notes.len() == sections[i].notes@.len(),
        score_section_views(sections)[i].notes[j] == sections[i].notes@[j]@,
{
}

} // verus!
