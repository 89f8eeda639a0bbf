//! Grouping the notes of a piano roll into the sections of a chart.

use crate::chart::{
    build_pitch_lookup, empty_section, last_entry_for_a_pitch_counts, later_marker, pitch_lane,
    pitch_without_entry_has_no_lane, section_views, BaseTempo, ChartNote, Section, SectionView,
};
use crate::flp::{
    FlNote, PITCH_ALT_ANIM, PITCH_BPM_CHANGE, PITCH_MUST_HIT_FALSE, PITCH_MUST_HIT_TRUE,
};
use crate::types::{item_reports, report_item, ConversionPreset, Progress, Side};
use vstd::multiset::Multiset;
use vstd::prelude::*;

verus! {

/// What a note stands for.
#[derive(Clone, Copy, Debug, PartialEq, Eq, Structural)]
pub enum NoteRole {
    /// Makes the player notes of its section alt notes.
    AltMarker,
    /// Changes the tempo from its section on.
    BpmChange,
    /// Sets `altAnim` on its section.
    AltAnim,
    /// Turns `mustHitSection` on or off.
    MustHit(bool),
    /// A note of the chart with this direction, of the player or not.
    Lane(u8, bool),
    /// Nothing.
    Ignored,
}

/// The role of a pitch. The alt marker comes first, then the fixed markers, then
/// the pitch mapping.
pub open spec fn role(preset: ConversionPreset, key: u8) -> NoteRole {
    if key == preset.alt_marker_pitch {
        NoteRole::AltMarker
    } else if key == PITCH_BPM_CHANGE {
        NoteRole::BpmChange
    } else if key == PITCH_ALT_ANIM {
        NoteRole::AltAnim
    } else if key == PITCH_MUST_HIT_TRUE {
        NoteRole::MustHit(true)
    } else if key == PITCH_MUST_HIT_FALSE {
        NoteRole::MustHit(false)
    } else {
        match pitch_lane(preset.mapping@, key) {
            Some((direction, player)) => NoteRole::Lane(direction, player),
            None => NoteRole::Ignored,
        }
    }
}

/// Finds the role of a pitch with the help of the table of the pitch mapping.
fn find_role(preset: &ConversionPreset, table: &[Option<(u8, bool)>; 256], key: u8) -> (r: NoteRole)
    requires
        forall|p: int| 0 <= p < 256 ==> #[trigger] table@[p] == pitch_lane(preset.mapping@, p as u8),
    ensures
        r == role(*preset, key),
{
    if key == preset.alt_marker_pitch {
        NoteRole::AltMarker
    } else if key == PITCH_BPM_CHANGE {
        NoteRole::BpmChange
    } else if key == PITCH_ALT_ANIM {
        NoteRole::AltAnim
    } else if key == PITCH_MUST_HIT_TRUE {
        NoteRole::MustHit(true)
    } else if key == PITCH_MUST_HIT_FALSE {
        NoteRole::MustHit(false)
    } else {
        assert(table@[key as int] == pitch_lane(preset.mapping@, key));
        match table[key as usize] {
            Some((direction, player)) => NoteRole::Lane(direction, player),
            None => NoteRole::Ignored,
        }
    }
}

/// The section that a note falls into: sections are four quarter notes wide.
pub open spec fn section_index(note: FlNote, ppq: u16) -> int {
    note.position as int / (ppq * 4)
}

/// The number of sections: up to the last one that a note falls into.
pub open spec fn section_total(notes: Seq<FlNote>, ppq: u16) -> nat
    decreases notes.len(),
{
    if notes.len() == 0 {
        0
    } else {
        let earlier = section_total(notes.drop_last(), ppq);
        let needed = section_index(notes.last(), ppq) + 1;
        if needed > earlier {
            needed as nat
        } else {
            earlier
        }
    }
}

/// A note with this role falls into section `i`.
pub open spec fn holds_role(
    notes: Seq<FlNote>,
    ppq: u16,
    preset: ConversionPreset,
    i: int,
    wanted: NoteRole,
) -> bool {
    exists|k: int|
        0 <= k < notes.len() && section_index(#[trigger] notes[k], ppq) == i && role(
            preset,
            notes[k].key,
        ) == wanted
}

/// The `mustHitSection` marker of section `i` that counts.
pub open spec fn marker_of(notes: Seq<FlNote>, ppq: u16, preset: ConversionPreset, i: int) -> Option<
    (u32, bool),
>
    decreases notes.len(),
{
    if notes.len() == 0 {
        None
    } else {
        let earlier = marker_of(notes.drop_last(), ppq, preset, i);
        match role(preset, notes.last().key) {
            NoteRole::MustHit(value) => if section_index(notes.last(), ppq) == i {
                later_marker(earlier, notes.last().position, value)
            } else {
                earlier
            },
            _ => earlier,
        }
    }
}

/// Velocities below this force a tail.
pub const SUSTAIN_VELOCITY: u8 = 64;

/// The chart note that a piano-roll note becomes.
pub open spec fn chart_note(note: FlNote, direction: u8, player: bool) -> ChartNote {
    ChartNote {
        position: note.position,
        length: note.length,
        direction,
        player,
        portamento: note.portamento,
        force_sustain: note.velocity < SUSTAIN_VELOCITY,
    }
}

/// The chart notes of section `i`, in the order in which they arrive.
pub open spec fn chart_notes(notes: Seq<FlNote>, ppq: u16, preset: ConversionPreset, i: int) -> Seq<
    ChartNote,
>
    decreases notes.len(),
{
    if notes.len() == 0 {
        seq![]
    } else {
        let earlier = chart_notes(notes.drop_last(), ppq, preset, i);
        match role(preset, notes.last().key) {
            NoteRole::Lane(direction, player) => if section_index(notes.last(), ppq) == i {
                earlier.push(chart_note(notes.last(), direction, player))
            } else {
                earlier
            },
            _ => earlier,
        }
    }
}

/// Section `i` as the notes make it.
pub open spec fn grouped_section(
    notes: Seq<FlNote>,
    ppq: u16,
    preset: ConversionPreset,
    i: int,
) -> SectionView {
    SectionView {
        alt: holds_role(notes, ppq, preset, i, NoteRole::AltMarker),
        bpm_change: holds_role(notes, ppq, preset, i, NoteRole::BpmChange),
        alt_anim: holds_role(notes, ppq, preset, i, NoteRole::AltAnim),
        must_hit_marker: marker_of(notes, ppq, preset, i),
        must_hit_section: false,
        base_tempo: BaseTempo::Milli(0),
        notes: chart_notes(notes, ppq, preset, i),
    }
}

/// All sections as the notes make them.
pub open spec fn grouped_sections(notes: Seq<FlNote>, ppq: u16, preset: ConversionPreset) -> Seq<
    SectionView,
> {
    Seq::new(section_total(notes, ppq), |i: int| grouped_section(notes, ppq, preset, i))
}

/// The number of notes that become chart notes.
pub open spec fn written_total(notes: Seq<FlNote>, preset: ConversionPreset) -> nat
    decreases notes.len(),
{
    if notes.len() == 0 {
        0
    } else {
        written_total(notes.drop_last(), preset) + if role(preset, notes.last().key) is Lane {
            1nat
        } else {
            0nat
        }
    }
}

proof fn lemma_holds_role_push(
    notes: Seq<FlNote>,
    note: FlNote,
    ppq: u16,
    preset: ConversionPreset,
    i: int,
    wanted: NoteRole,
)
    ensures
        holds_role(notes.push(note), ppq, preset, i, wanted) == (holds_role(
            notes,
            ppq,
            preset,
            i,
            wanted,
        ) || (section_index(note, ppq) == i && role(preset, note.key) == wanted)),
{
    let longer = notes.push(note);
    if holds_role(notes, ppq, preset, i, wanted) {
        let k = choose|k: int|
            0 <= k < notes.len() && section_index(#[trigger] notes[k], ppq) == i && role(
                preset,
                notes[k].key,
            ) == wanted;
        assert(longer[k] == notes[k]);
    }
    if section_index(note, ppq) == i && role(preset, note.key) == wanted {
        assert(longer[notes.len() as int] == note);
    }
    if holds_role(longer, ppq, preset, i, wanted) {
        let k = choose|k: int|
            0 <= k < longer.len() && section_index(#[trigger] longer[k], ppq) == i && role(
                preset,
                longer[k].key,
            ) == wanted;
        if k < notes.len() {
            assert(longer[k] == notes[k]);
        }
    }
}

/// Sections behind the last one that a note falls into are empty.
proof fn lemma_behind_is_empty(notes: Seq<FlNote>, ppq: u16, preset: ConversionPreset, i: int)
    requires
        i >= section_total(notes, ppq),
    ensures
        grouped_section(notes, ppq, preset, i) == empty_section(),
    decreases notes.len(),
{
    if notes.len() > 0 {
        let before = notes.drop_last();
        lemma_behind_is_empty(before, ppq, preset, i);
        assert(notes =~= before.push(notes.last()));
        lemma_holds_role_push(before, notes.last(), ppq, preset, i, NoteRole::AltMarker);
        lemma_holds_role_push(before, notes.last(), ppq, preset, i, NoteRole::BpmChange);
        lemma_holds_role_push(before, notes.last(), ppq, preset, i, NoteRole::AltAnim);
    }
}

/// What a note does to its section.
pub open spec fn with_note(section: SectionView, note: FlNote, found: NoteRole) -> SectionView {
    match found {
        NoteRole::AltMarker => SectionView { alt: true, ..section },
        NoteRole::BpmChange => SectionView { bpm_change: true, ..section },
        NoteRole::AltAnim => SectionView { alt_anim: true, ..section },
        NoteRole::MustHit(value) => SectionView {
            must_hit_marker: later_marker(section.must_hit_marker, note.position, value),
            ..section
        },
        NoteRole::Lane(direction, player) => SectionView {
            notes: section.notes.push(chart_note(note, direction, player)),
            ..section
        },
        NoteRole::Ignored => section,
    }
}

/// One more note changes its own section and no other.
proof fn lemma_section_push(notes: Seq<FlNote>, note: FlNote, ppq: u16, preset: ConversionPreset, i: int)
    ensures
        grouped_section(notes.push(note), ppq, preset, i) == if section_index(note, ppq) == i {
            with_note(grouped_section(notes, ppq, preset, i), note, role(preset, note.key))
        } else {
            grouped_section(notes, ppq, preset, i)
        },
{
    assert(notes.push(note).drop_last() =~= notes);
    lemma_holds_role_push(notes, note, ppq, preset, i, NoteRole::AltMarker);
    lemma_holds_role_push(notes, note, ppq, preset, i, NoteRole::BpmChange);
    lemma_holds_role_push(notes, note, ppq, preset, i, NoteRole::AltAnim);
}

/// Lets a note do what its role asks for.
fn place_note(section: &mut Section, note: &FlNote, found: NoteRole)
    ensures
        final(section)@ == with_note(old(section)@, *note, found),
{
    match found {
        NoteRole::AltMarker => section.alt = true,
        NoteRole::BpmChange => section.bpm_change = true,
        NoteRole::AltAnim => section.alt_anim = true,
        NoteRole::MustHit(value) => section.record_must_hit_marker(note.position, value),
        NoteRole::Lane(direction, player) => {
            section.notes.push(
                ChartNote {
                    position: note.position,
                    length: note.length,
                    direction,
                    player,
                    portamento: note.portamento,
                    force_sustain: note.velocity < SUSTAIN_VELOCITY,
                },
            );
        },
        NoteRole::Ignored => {},
    }
}

/// Groups notes into sections, and counts those that become chart notes.
/// Progress reports go to `log`.
pub fn group_notes(
    notes: &Vec<FlNote>,
    ppq: u16,
    preset: &ConversionPreset,
    log: &mut Vec<Progress>,
) -> (r: (Vec<Section>, usize))
    requires
        ppq > 0,
    ensures
        section_views(r.0@) == grouped_sections(notes@, ppq, *preset),
        r.1 == written_total(notes@, *preset),
        final(log)@ == old(log)@ + item_reports(notes@.len(), notes@.len()),
{
    let table: [Option<(u8, bool)>; 256] = build_pitch_lookup(preset);
    let width: u32 = ppq as u32 * 4;
    let total: usize = notes.len();
    let mut sections: Vec<Section> = Vec::new();
    let mut written: usize = 0;
    proof {
        assert(notes@.take(0) =~= seq![]);
        assert(section_views(sections@) =~= grouped_sections(notes@.take(0), ppq, *preset));
        assert(log@ =~= old(log)@ + item_reports(0, total as nat));
    }
    for index in 0..total
        invariant
            ppq > 0,
            width == ppq * 4,
            total == notes@.len(),
            forall|p: int| 0 <= p < 256 ==> #[trigger] table@[p] == pitch_lane(preset.mapping@, p as u8),
            section_views(sections@) == grouped_sections(notes@.take(index as int), ppq, *preset),
            written == written_total(notes@.take(index as int), *preset),
            written <= index,
            log@ == old(log)@ + item_reports(index as nat, total as nat),
    {
        report_item(index, total, log);
        assert(log@ =~= old(log)@ + item_reports((index + 1) as nat, total as nat));
        let note: FlNote = notes[index];
        let ghost seen = notes@.take(index as int);
        let ghost longer = notes@.take(index + 1);
        proof {
            assert(longer =~= seen.push(note));
            assert(longer.drop_last() =~= seen);
        }
        let at: usize = (note.position / width) as usize;
        assert(at == section_index(note, ppq));
        let ghost known = sections@.len() as int;
        proof {
            assert(section_views(sections@).len() == sections@.len());
            assert forall|i: int| 0 <= i < sections@.len() implies (#[trigger] sections@[i])@
                == grouped_section(seen, ppq, *preset, i) by {
                assert(section_views(sections@)[i] == sections@[i]@);
            }
        }
        while sections.len() <= at
            invariant
                known == section_total(seen, ppq),
                known <= sections@.len(),
                sections@.len() <= at + 1 || sections@.len() == known,
                forall|i: int|
                    0 <= i < sections@.len() ==> (#[trigger] sections@[i])@ == grouped_section(
                        seen,
                        ppq,
                        *preset,
                        i,
                    ),
            decreases at + 1 - sections@.len(),
        {
            sections.push(Section::default());
            proof {
                lemma_behind_is_empty(seen, ppq, *preset, sections@.len() - 1);
            }
        }
        let found: NoteRole = find_role(preset, &table, note.key);
        let ghost unplaced = sections@;
        place_note(&mut sections[at], &note, found);
        if let NoteRole::Lane(_, _) = found {
            written += 1;
        }
        proof {
            assert forall|i: int| 0 <= i < sections@.len() implies (#[trigger] sections@[i])@
                == grouped_section(longer, ppq, *preset, i) by {
                lemma_section_push(seen, note, ppq, *preset, i);
                if i != at {
                    assert(sections@[i] == unplaced[i]);
                }
            }
            assert(section_views(sections@) =~= grouped_sections(longer, ppq, *preset));
        }
    }
    assert(notes@.take(total as int) =~= notes@);
    (sections, written)
}

/// The number of notes in the first `n` sections.
pub open spec fn note_sum(sections: Seq<SectionView>, n: nat) -> nat
    decreases n,
{
    if n == 0 {
        0
    } else {
        note_sum(sections, (n - 1) as nat) + sections[n - 1].notes.len()
    }
}

/// The notes in the first `n` sections, whatever their order.
pub open spec fn note_bag(sections: Seq<SectionView>, n: nat) -> Multiset<ChartNote>
    decreases n,
{
    if n == 0 {
        Multiset::empty()
    } else {
        note_bag(sections, (n - 1) as nat).add(sections[n - 1].notes.to_multiset())
    }
}

/// The chart notes that all notes with a lane become, in the order in which they
/// arrive.
pub open spec fn lane_notes(notes: Seq<FlNote>, preset: ConversionPreset) -> Seq<ChartNote>
    decreases notes.len(),
{
    if notes.len() == 0 {
        seq![]
    } else {
        let earlier = lane_notes(notes.drop_last(), preset);
        match role(preset, notes.last().key) {
            NoteRole::Lane(direction, player) => earlier.push(
                chart_note(notes.last(), direction, player),
            ),
            _ => earlier,
        }
    }
}

proof fn lemma_lane_notes_total(notes: Seq<FlNote>, preset: ConversionPreset)
    ensures
        lane_notes(notes, preset).len() == written_total(notes, preset),
    decreases notes.len(),
{
    if notes.len() > 0 {
        lemma_lane_notes_total(notes.drop_last(), preset);
    }
}

/// The chart notes in the first `n` sections, whatever their order.
spec fn chart_note_bag(notes: Seq<FlNote>, ppq: u16, preset: ConversionPreset, n: nat) -> Multiset<ChartNote>
    decreases n,
{
    if n == 0 {
        Multiset::empty()
    } else {
        chart_note_bag(notes, ppq, preset, (n - 1) as nat).add(
            chart_notes(notes, ppq, preset, n - 1).to_multiset(),
        )
    }
}

/// What a note adds to the first `n` sections: itself as a chart note, if it has a
/// lane and falls into one of them.
spec fn added_bag(note: FlNote, ppq: u16, preset: ConversionPreset, n: nat) -> Multiset<ChartNote> {
    match role(preset, note.key) {
        NoteRole::Lane(direction, player) => if section_index(note, ppq) < n {
            Multiset::singleton(chart_note(note, direction, player))
        } else {
            Multiset::empty()
        },
        _ => Multiset::empty(),
    }
}

proof fn lemma_bag_push(notes: Seq<FlNote>, note: FlNote, ppq: u16, preset: ConversionPreset, n: nat)
    requires
        ppq > 0,
    ensures
        chart_note_bag(notes.push(note), ppq, preset, n) == chart_note_bag(notes, ppq, preset, n).add(
            added_bag(note, ppq, preset, n),
        ),
    decreases n,
{
    broadcast use vstd::seq_lib::group_to_multiset_ensures;

    let index = section_index(note, ppq);
    assert(index >= 0) by (nonlinear_arith)
        requires
            ppq > 0,
            index == note.position as int / (ppq * 4),
    ;
    if n > 0 {
        lemma_bag_push(notes, note, ppq, preset, (n - 1) as nat);
        assert(notes.push(note).drop_last() =~= notes);
        if let NoteRole::Lane(direction, player) = role(preset, note.key) {
            if index == n - 1 {
                vstd::seq_lib::to_multiset_build(
                    chart_notes(notes, ppq, preset, n - 1),
                    chart_note(note, direction, player),
                );
            }
        }
    }
    assert(chart_note_bag(notes.push(note), ppq, preset, n) =~= chart_note_bag(notes, ppq, preset, n).add(
        added_bag(note, ppq, preset, n),
    ));
}

proof fn lemma_bag(notes: Seq<FlNote>, ppq: u16, preset: ConversionPreset, n: nat)
    requires
        ppq > 0,
        n >= section_total(notes, ppq),
    ensures
        chart_note_bag(notes, ppq, preset, n) == lane_notes(notes, preset).to_multiset(),
    decreases notes.len(),
{
    broadcast use vstd::seq_lib::group_to_multiset_ensures;

    if notes.len() == 0 {
        lemma_no_notes_empty_bag(notes, ppq, preset, n);
        assert(lane_notes(notes, preset).to_multiset() =~= Multiset::empty());
    } else {
        let before = notes.drop_last();
        let last = notes.last();
        lemma_bag(before, ppq, preset, n);
        assert(notes =~= before.push(last));
        lemma_bag_push(before, last, ppq, preset, n);
        if let NoteRole::Lane(direction, player) = role(preset, last.key) {
            vstd::seq_lib::to_multiset_build(
                lane_notes(before, preset),
                chart_note(last, direction, player),
            );
        }
        assert(chart_note_bag(notes, ppq, preset, n) =~= lane_notes(notes, preset).to_multiset());
    }
}

proof fn lemma_no_notes_empty_bag(notes: Seq<FlNote>, ppq: u16, preset: ConversionPreset, n: nat)
    requires
        notes.len() == 0,
    ensures
        chart_note_bag(notes, ppq, preset, n) == Multiset::<ChartNote>::empty(),
    decreases n,
{
    broadcast use vstd::seq_lib::group_to_multiset_ensures;

    if n > 0 {
        lemma_no_notes_empty_bag(notes, ppq, preset, (n - 1) as nat);
        assert(chart_note_bag(notes, ppq, preset, n) =~= Multiset::empty());
    }
}

proof fn lemma_same_bag(notes: Seq<FlNote>, ppq: u16, preset: ConversionPreset, n: nat)
    requires
        n <= section_total(notes, ppq),
    ensures
        note_bag(grouped_sections(notes, ppq, preset), n) == chart_note_bag(notes, ppq, preset, n),
    decreases n,
{
    if n > 0 {
        lemma_same_bag(notes, ppq, preset, (n - 1) as nat);
    }
}

/// As many notes are in the bag of some sections as in the sections.
pub proof fn bag_counts_notes(sections: Seq<SectionView>, n: nat)
    ensures
        note_bag(sections, n).len() == note_sum(sections, n),
    decreases n,
{
    broadcast use vstd::seq_lib::group_to_multiset_ensures;

    if n > 0 {
        bag_counts_notes(sections, (n - 1) as nat);
    }
}

/// No note is lost and none is made up: the sections together hold exactly the
/// chart notes that the notes with a lane become, each as often as it comes.
pub proof fn grouping_keeps_all_notes(notes: Seq<FlNote>, ppq: u16, preset: ConversionPreset)
    requires
        ppq > 0,
    ensures
        note_bag(grouped_sections(notes, ppq, preset), section_total(notes, ppq)) == lane_notes(
            notes,
            preset,
        ).to_multiset(),
        note_sum(grouped_sections(notes, ppq, preset), section_total(notes, ppq)) == written_total(
            notes,
            preset,
        ),
{
    broadcast use vstd::seq_lib::group_to_multiset_ensures;

    let total = section_total(notes, ppq);
    lemma_bag(notes, ppq, preset, total);
    lemma_same_bag(notes, ppq, preset, total);
    bag_counts_notes(grouped_sections(notes, ppq, preset), total);
    lemma_lane_notes_total(notes, preset);
}

/// Every note of a section lies within the ticks of that section.
pub proof fn notes_lie_in_their_section(
    notes: Seq<FlNote>,
    ppq: u16,
    preset: ConversionPreset,
    i: int,
    k: int,
)
    requires
        ppq > 0,
        0 <= k < chart_notes(notes, ppq, preset, i).len(),
    ensures
        i * (ppq * 4) <= chart_notes(notes, ppq, preset, i)[k].position < (i + 1) * (ppq * 4),
    decreases notes.len(),
{
    if notes.len() > 0 {
        let before = notes.drop_last();
        if k < chart_notes(before, ppq, preset, i).len() {
            notes_lie_in_their_section(before, ppq, preset, i, k);
        } else {
            let position = notes.last().position as int;
            let width = (ppq * 4) as int;
            assert(i * width <= position < (i + 1) * width) by (nonlinear_arith)
                requires
                    width > 0,
                    i == position / width,
            ;
        }
    }
}

/// Where there are notes, there is a section.
pub proof fn notes_make_a_section(notes: Seq<FlNote>, ppq: u16)
    requires
        ppq > 0,
        notes.len() > 0,
    ensures
        section_total(notes, ppq) > 0,
    decreases notes.len(),
{
    let position = notes.last().position as int;
    let width = (ppq * 4) as int;
    assert(position / width >= 0) by (nonlinear_arith)
        requires
            width > 0,
            position >= 0,
    ;
}

/// Of the `mustHitSection` markers of a section the latest by position counts.
pub proof fn latest_marker_counts(notes: Seq<FlNote>, ppq: u16, preset: ConversionPreset, i: int)
    ensures
        match marker_of(notes, ppq, preset, i) {
            None => forall|k: int|
                0 <= k < notes.len() && section_index(#[trigger] notes[k], ppq) == i ==> !(role(
                    preset,
                    notes[k].key,
                ) is MustHit),
            Some((position, value)) => {
                &&& exists|k: int|
                    0 <= k < notes.len() && section_index(#[trigger] notes[k], ppq) == i
                        && notes[k].position == position && role(preset, notes[k].key)
                        == NoteRole::MustHit(value)
                &&& forall|k: int|
                    0 <= k < notes.len() && section_index(#[trigger] notes[k], ppq) == i && role(
                        preset,
                        notes[k].key,
                    ) is MustHit ==> notes[k].position <= position
            },
        },
    decreases notes.len(),
{
    if notes.len() > 0 {
        let before = notes.drop_last();
        latest_marker_counts(before, ppq, preset, i);
        assert forall|k: int| 0 <= k < before.len() implies #[trigger] notes[k] == before[k] by {}
        let last = notes.len() - 1;
        if let Some((position, value)) = marker_of(before, ppq, preset, i) {
            let k = choose|k: int|
                0 <= k < before.len() && section_index(#[trigger] before[k], ppq) == i
                    && before[k].position == position && role(preset, before[k].key)
                    == NoteRole::MustHit(value);
            assert(notes[k] == before[k]);
        }
        assert forall|k: int|
            0 <= k < notes.len() && section_index(#[trigger] notes[k], ppq) == i && role(
                preset,
                notes[k].key,
            ) is MustHit implies (marker_of(notes, ppq, preset, i) matches Some((position, _))
            && notes[k].position <= position) by {
            if k < last {
                assert(before[k] == notes[k]);
            }
        }
        if section_index(notes[last], ppq) == i && role(preset, notes[last].key) is MustHit {
            assert(notes[last] == notes.last());
        }
    }
}

/// Two presets give every pitch the same role.
pub open spec fn same_roles(a: ConversionPreset, b: ConversionPreset) -> bool {
    a.alt_marker_pitch == b.alt_marker_pitch && a.mapping@ == b.mapping@
}

proof fn lemma_same_section(notes: Seq<FlNote>, ppq: u16, a: ConversionPreset, b: ConversionPreset, i: int)
    requires
        same_roles(a, b),
    ensures
        chart_notes(notes, ppq, a, i) == chart_notes(notes, ppq, b, i),
        marker_of(notes, ppq, a, i) == marker_of(notes, ppq, b, i),
        forall|wanted: NoteRole| #[trigger]
            holds_role(notes, ppq, a, i, wanted) == holds_role(notes, ppq, b, i, wanted),
        written_total(notes, a) == written_total(notes, b),
        lane_notes(notes, a) == lane_notes(notes, b),
    decreases notes.len(),
{
    assert(forall|key: u8| #[trigger] role(a, key) == role(b, key));
    assert forall|wanted: NoteRole| #[trigger]
        holds_role(notes, ppq, a, i, wanted) == holds_role(notes, ppq, b, i, wanted) by {
        assert(forall|k: int| role(a, (#[trigger] notes[k]).key) == role(b, notes[k].key));
    }
    if notes.len() > 0 {
        lemma_same_section(notes.drop_last(), ppq, a, b, i);
    }
}

/// The sections depend on the settings only through the roles of the pitches.
pub proof fn sections_depend_on_roles(
    notes: Seq<FlNote>,
    ppq: u16,
    a: ConversionPreset,
    b: ConversionPreset,
)
    requires
        same_roles(a, b),
    ensures
        grouped_sections(notes, ppq, a) == grouped_sections(notes, ppq, b),
        written_total(notes, a) == written_total(notes, b),
        lane_notes(notes, a) == lane_notes(notes, b),
{
    assert forall|i: int| 0 <= i < section_total(notes, ppq) implies #[trigger] grouped_sections(
        notes,
        ppq,
        a,
    )[i] == grouped_sections(notes, ppq, b)[i] by {
        lemma_same_section(notes, ppq, a, b, i);
    }
    lemma_same_section(notes, ppq, a, b, 0);
    assert(grouped_sections(notes, ppq, a) =~= grouped_sections(notes, ppq, b));
}

/// The pitch of the alt marker stands for it, whatever else the pitch could stand for.
/// Otherwise pitch 56 changes the tempo, 57 sets `altAnim`, and 53 and 54 turn
/// `mustHitSection` on and off.
pub proof fn markers_have_their_pitches(preset: ConversionPreset, key: u8)
    ensures
        role(preset, key) is AltMarker <==> key == preset.alt_marker_pitch,
        role(preset, key) is BpmChange <==> key == 56 && key != preset.alt_marker_pitch,
        role(preset, key) is AltAnim <==> key == 57 && key != preset.alt_marker_pitch,
        role(preset, key) == NoteRole::MustHit(true) <==> key == 53 && key
            != preset.alt_marker_pitch,
        role(preset, key) == NoteRole::MustHit(false) <==> key == 54 && key
            != preset.alt_marker_pitch,
{
}

/// A pitch that is no marker stands for the lane of the last entry of the mapping that
/// is for it.
pub proof fn mapped_pitches_have_lanes(preset: ConversionPreset, key: u8, k: int)
    requires
        key != preset.alt_marker_pitch,
        key != 53 && key != 54 && key != 56 && key != 57,
        0 <= k < preset.mapping@.len(),
        preset.mapping@[k].pitch == key,
        forall|m: int| k < m < preset.mapping@.len() ==> (#[trigger] preset.mapping@[m]).pitch != key,
    ensures
        role(preset, key) == NoteRole::Lane(
            preset.mapping@[k].direction,
            preset.mapping@[k].side == Side::Player,
        ),
{
    last_entry_for_a_pitch_counts(preset.mapping@, key, k);
}

/// A pitch that is no marker and that no entry of the mapping is for stands for nothing.
pub proof fn unmapped_pitches_are_ignored(preset: ConversionPreset, key: u8)
    requires
        key != preset.alt_marker_pitch,
        key != 53 && key != 54 && key != 56 && key != 57,
        forall|k: int| 0 <= k < preset.mapping@.len() ==> (#[trigger] preset.mapping@[k]).pitch != key,
    ensures
        role(preset, key) is Ignored,
{
    pitch_without_entry_has_no_lane(preset.mapping@, key);
}

/// Sections follow one another without gaps, each as wide as four quarter notes: a note
/// falls into the one whose ticks hold its position.
pub proof fn sections_are_four_quarters_wide(note: FlNote, ppq: u16, i: int)
    requires
        ppq > 0,
    ensures
        section_index(note, ppq) == i <==> 4 * ppq * i <= note.position < 4 * ppq * i + 4 * ppq,
        0 <= section_index(note, ppq) <= note.position,
{
    let position = note.position as int;
    let width = (ppq * 4) as int;
    assert(position / width == i <==> width * i <= position < width * i + width) by (nonlinear_arith)
        requires
            width > 0,
            position >= 0,
    ;
    assert(0 <= position / width <= position) by (nonlinear_arith)
        requires
            width > 0,
            position >= 0,
    ;
    assert(4 * ppq * i == width * i) by (nonlinear_arith)
        requires
            width == ppq * 4,
    ;
}

/// There is a section for every note, and none behind the last one with a note.
pub proof fn sections_reach_to_the_last_note(notes: Seq<FlNote>, ppq: u16)
    requires
        ppq > 0,
    ensures
        forall|k: int|
            0 <= k < notes.len() ==> (#[trigger] notes[k]).position < 4 * ppq * section_total(notes, ppq),
        section_total(notes, ppq) == 0 <==> notes.len() == 0,
        notes.len() > 0 ==> exists|k: int|
            0 <= k < notes.len() && (#[trigger] notes[k]).position >= 4 * ppq * (section_total(
                notes,
                ppq,
            ) - 1),
    decreases notes.len(),
{
    if notes.len() > 0 {
        let before = notes.drop_last();
        let last = notes.len() - 1;
        let total = section_total(notes, ppq) as int;
        let earlier = section_total(before, ppq) as int;
        let at = section_index(notes.last(), ppq);
        sections_reach_to_the_last_note(before, ppq);
        sections_are_four_quarters_wide(notes.last(), ppq, at);
        assert(notes[last] == notes.last());
        assert(4 * ppq * earlier <= 4 * ppq * total && 4 * ppq * (at + 1) <= 4 * ppq * total
            && 4 * ppq * (at + 1) == 4 * ppq * at + 4 * ppq) by (nonlinear_arith)
            requires
                earlier <= total,
                at + 1 <= total,
                ppq >= 0,
        ;
        assert forall|k: int| 0 <= k < notes.len() implies (#[trigger] notes[k]).position < 4 * ppq
            * total by {
            if k < last {
                assert(before[k] == notes[k]);
            }
        }
        if at + 1 > earlier {
            assert(notes[last].position >= 4 * ppq * (total - 1));
        } else {
            let k = choose|k: int|
                0 <= k < before.len() && (#[trigger] before[k]).position >= 4 * ppq * (earlier - 1);
            assert(notes[k] == before[k]);
        }
    }
}

/// A section holds the notes that fall into it and have a lane, in the order in which
/// they arrive. Each keeps its position, its length and its portamento, whatever its
/// velocity; a velocity below 64 forces a tail.
pub proof fn sections_hold_their_notes_unchanged(
    notes: Seq<FlNote>,
    ppq: u16,
    preset: ConversionPreset,
    i: int,
)
    ensures
        grouped_section(notes, ppq, preset, i).notes == notes.filter_map(
            |n: FlNote|
                match role(preset, n.key) {
                    NoteRole::Lane(direction, player) if n.position as int / (ppq * 4) == i => Some(
                        ChartNote {
                            position: n.position,
                            length: n.length,
                            direction,
                            player,
                            portamento: n.portamento,
                            force_sustain: n.velocity < 64,
                        },
                    ),
                    _ => None,
                },
        ),
    decreases notes.len(),
{
    if notes.len() > 0 {
        sections_hold_their_notes_unchanged(notes.drop_last(), ppq, preset, i);
    }
}

/// Every note with a lane stands in its section with exactly its position, length and
/// portamento.
pub proof fn every_lane_note_is_charted(
    notes: Seq<FlNote>,
    ppq: u16,
    preset: ConversionPreset,
    k: int,
    direction: u8,
    player: bool,
)
    requires
        ppq > 0,
        0 <= k < notes.len(),
        role(preset, notes[k].key) == NoteRole::Lane(direction, player),
    ensures
        ({
            let i = notes[k].position as int / (ppq * 4);
            &&& 0 <= i < grouped_sections(notes, ppq, preset).len()
            &&& grouped_sections(notes, ppq, preset)[i].notes.contains(
                ChartNote {
                    position: notes[k].position,
                    length: notes[k].length,
                    direction,
                    player,
                    portamento: notes[k].portamento,
                    force_sustain: notes[k].velocity < 64,
                },
            )
        }),
    decreases notes.len(),
{
    let before = notes.drop_last();
    let i = section_index(notes[k], ppq);
    let last = notes.len() - 1;
    sections_are_four_quarters_wide(notes[k], ppq, i);
    if k < last {
        every_lane_note_is_charted(before, ppq, preset, k, direction, player);
        let charted = chart_note(notes[k], direction, player);
        let held = chart_notes(before, ppq, preset, i);
        let m = choose|m: int| 0 <= m < held.len() && held[m] == charted;
        assert(chart_notes(notes, ppq, preset, i)[m] == charted);
    } else {
        let held = chart_notes(notes, ppq, preset, i);
        assert(held[held.len() - 1] == chart_note(notes[k], direction, player));
    }
}

/// A section holds no note but those that fall into it and have a lane.
pub proof fn charted_notes_come_from_lane_notes(
    notes: Seq<FlNote>,
    ppq: u16,
    preset: ConversionPreset,
    i: int,
    m: int,
)
    requires
        0 <= m < grouped_section(notes, ppq, preset, i).notes.len(),
    ensures
        exists|k: int|
            {
                let charted = grouped_section(notes, ppq, preset, i).notes[m];
                &&& 0 <= k < notes.len()
                &&& (#[trigger] notes[k]).position as int / (ppq * 4) == i
                &&& role(preset, notes[k].key) == NoteRole::Lane(charted.direction, charted.player)
                &&& charted.position == notes[k].position
                &&& charted.length == notes[k].length
                &&& charted.portamento == notes[k].portamento
                &&& charted.force_sustain == (notes[k].velocity <= 63)
            },
    decreases notes.len(),
{
    let before = notes.drop_last();
    let last = notes.len() - 1;
    if m < chart_notes(before, ppq, preset, i).len() {
        charted_notes_come_from_lane_notes(before, ppq, preset, i, m);
        let charted = grouped_section(before, ppq, preset, i).notes[m];
        let k = choose|k: int|
            {
                &&& 0 <= k < before.len()
                &&& (#[trigger] before[k]).position as int / (ppq * 4) == i
                &&& role(preset, before[k].key) == NoteRole::Lane(charted.direction, charted.player)
                &&& charted.position == before[k].position
                &&& charted.length == before[k].length
                &&& charted.portamento == before[k].portamento
                &&& charted.force_sustain == (before[k].velocity <= 63)
            };
        assert(notes[k] == before[k]);
    } else {
        assert(notes[last] == notes.last());
    }
}

/// A section is an alt section, changes the tempo or sets `altAnim` exactly when a note
/// of the pitch for it falls into the section.
pub proof fn flags_come_from_marker_notes(
    notes: Seq<FlNote>,
    ppq: u16,
    preset: ConversionPreset,
    i: int,
)
    ensures
        grouped_section(notes, ppq, preset, i).alt <==> exists|k: int|
            0 <= k < notes.len() && (#[trigger] notes[k]).position as int / (ppq * 4) == i
                && notes[k].key == preset.alt_marker_pitch,
        grouped_section(notes, ppq, preset, i).bpm_change <==> exists|k: int|
            0 <= k < notes.len() && (#[trigger] notes[k]).position as int / (ppq * 4) == i
                && notes[k].key == 56 && preset.alt_marker_pitch != 56,
        grouped_section(notes, ppq, preset, i).alt_anim <==> exists|k: int|
            0 <= k < notes.len() && (#[trigger] notes[k]).position as int / (ppq * 4) == i
                && notes[k].key == 57 && preset.alt_marker_pitch != 57,
{
    let section = grouped_section(notes, ppq, preset, i);
    assert forall|k: int| 0 <= k < notes.len() implies {
        let found = role(preset, (#[trigger] notes[k]).key);
        &&& found is AltMarker <==> notes[k].key == preset.alt_marker_pitch
        &&& found is BpmChange <==> notes[k].key == 56 && preset.alt_marker_pitch != 56
        &&& found is AltAnim <==> notes[k].key == 57 && preset.alt_marker_pitch != 57
    } by {
        markers_have_their_pitches(preset, notes[k].key);
    }
}

/// As many notes are counted as have a lane.
pub proof fn notes_with_a_lane_are_counted(notes: Seq<FlNote>, preset: ConversionPreset)
    ensures
        written_total(notes, preset) == notes.filter(|n: FlNote| role(preset, n.key) is Lane).len(),
    decreases notes.len(),
{
    reveal(Seq::filter);
    if notes.len() > 0 {
        notes_with_a_lane_are_counted(notes.drop_last(), preset);
    }
}

/// Of the `mustHitSection` notes of a section the one at the latest position counts; of
/// several at that position the one that arrives last.
pub proof fn last_must_hit_note_counts(
    notes: Seq<FlNote>,
    ppq: u16,
    preset: ConversionPreset,
    i: int,
    k: int,
    value: bool,
)
    requires
        0 <= k < notes.len(),
        notes[k].position as int / (ppq * 4) == i,
        preset.alt_marker_pitch != 53 && preset.alt_marker_pitch != 54,
        notes[k].key == if value {
            53u8
        } else {
            54u8
        },
        forall|m: int|
            0 <= m < notes.len() && (#[trigger] notes[m]).position as int / (ppq * 4) == i && (
            notes[m].key == 53 || notes[m].key == 54) ==> if m <= k {
                notes[m].position <= notes[k].position
            } else {
                notes[m].position < notes[k].position
            },
    ensures
        grouped_section(notes, ppq, preset, i).must_hit_marker == Some((notes[k].position, value)),
    decreases notes.len(),
{
    let before = notes.drop_last();
    let last = notes.len() - 1;
    assert forall|m: int| 0 <= m < before.len() implies before[m] == #[trigger] notes[m] by {}
    if k < last {
        last_must_hit_note_counts(before, ppq, preset, i, k, value);
        markers_have_their_pitches(preset, notes[last].key);
    } else {
        latest_marker_counts(before, ppq, preset, i);
        markers_have_their_pitches(preset, notes[k].key);
        if let Some((position, known)) = marker_of(before, ppq, preset, i) {
            let m = choose|m: int|
                0 <= m < before.len() && section_index(#[trigger] before[m], ppq) == i
                    && before[m].position == position && role(preset, before[m].key)
                    == NoteRole::MustHit(known);
            markers_have_their_pitches(preset, before[m].key);
            assert(notes[m] == before[m]);
        }
    }
}

/// All sections are made alike: each from the notes that fall into it.
pub proof fn every_section_is_grouped(notes: Seq<FlNote>, ppq: u16, preset: ConversionPreset, i: int)
    requires
        0 <= i < section_total(notes, ppq),
    ensures
        grouped_sections(notes, ppq, preset).len() == section_total(notes, ppq),
        grouped_sections(notes, ppq, preset)[i] == grouped_section(notes, ppq, preset, i),
        !grouped_sections(notes, ppq, preset)[i].must_hit_section,
{
}

} // verus!
