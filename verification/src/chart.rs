//! The chart: sections, the passes over them, and their rendered form.

use crate::number::Real;
use crate::sort::{
    comes_before, orders, orders_is_reordering, reordered, reordering_keeps_items, sorted_order,
};
use crate::types::{ConversionPreset, PitchMapping, Side};
use vstd::prelude::*;

verus! {

/// A note of the chart, still in ticks.
#[derive(Clone, Copy, Debug, PartialEq, Eq, Structural)]
pub struct ChartNote {
    /// Position in ticks.
    pub position: u32,
    /// Length in ticks.
    pub length: u32,
    /// Direction (0 to 3), without the offset of the lane.
    pub direction: u8,
    pub player: bool,
    pub portamento: bool,
    /// The note has a tail however short it is.
    pub force_sustain: bool,
}

/// A tempo without the multiplier.
#[derive(Clone, Copy, Debug, PartialEq, Eq, Structural)]
pub enum BaseTempo {
    /// Thousandths of a beat per minute, as a project holds it.
    Milli(u32),
    /// A tempo from the settings.
    Given(Real),
}

/// One section of sixteen steps.
#[derive(Clone, Debug, PartialEq, Eq)]
pub struct Section {
    /// The section holds an alt marker: its player notes are alt notes.
    pub alt: bool,
    /// The section holds a tempo-change marker.
    pub bpm_change: bool,
    /// The section holds an `altAnim` marker.
    pub alt_anim: bool,
    /// The latest `mustHitSection` marker of the section, with its position.
    pub must_hit_marker: Option<(u32, bool)>,
    /// Set by [`resolve_must_hit_sections`].
    pub must_hit_section: bool,
    /// Set by [`resolve_section_timing`].
    pub base_tempo: BaseTempo,
    pub notes: Vec<ChartNote>,
}

/// A section as mathematical values.
#[verifier::ext_equal]
pub struct SectionView {
    pub alt: bool,
    pub bpm_change: bool,
    pub alt_anim: bool,
    pub must_hit_marker: Option<(u32, bool)>,
    pub must_hit_section: bool,
    pub base_tempo: BaseTempo,
    pub notes: Seq<ChartNote>,
}

impl View for Section {
    type V = SectionView;

    open spec fn view(&self) -> SectionView {
        SectionView {
            alt: self.alt,
            bpm_change: self.bpm_change,
            alt_anim: self.alt_anim,
            must_hit_marker: self.must_hit_marker,
            must_hit_section: self.must_hit_section,
            base_tempo: self.base_tempo,
            notes: self.notes@,
        }
    }
}

/// The views of some sections.
pub open spec fn section_views(sections: Seq<Section>) -> Seq<SectionView> {
    sections.map_values(|s: Section| s@)
}

/// A section without notes and markers.
pub open spec fn empty_section() -> SectionView {
    SectionView {
        alt: false,
        bpm_change: false,
        alt_anim: false,
        must_hit_marker: None,
        must_hit_section: false,
        base_tempo: BaseTempo::Milli(0),
        notes: seq![],
    }
}

impl Default for Section {
    fn default() -> (r: Self)
        ensures
            r@ == empty_section(),
    {
        Section {
            alt: false,
            bpm_change: false,
            alt_anim: false,
            must_hit_marker: None,
            must_hit_section: false,
            base_tempo: BaseTempo::Milli(0),
            notes: Vec::new(),
        }
    }
}

/// Of two markers the later one by position; of two at the same position the
/// one that arrives second.
pub open spec fn later_marker(known: Option<(u32, bool)>, position: u32, value: bool) -> Option<
    (u32, bool),
> {
    match known {
        Some((existing, _)) => if position >= existing {
            Some((position, value))
        } else {
            known
        },
        None => Some((position, value)),
    }
}

impl Section {
    /// Records a `mustHitSection` marker.
    pub fn record_must_hit_marker(&mut self, position: u32, value: bool)
        ensures
            final(self)@ == (SectionView {
                must_hit_marker: later_marker(old(self).must_hit_marker, position, value),
                ..old(self)@
            }),
            old(self).must_hit_marker matches Some((known, _)) && position < known
                ==> final(self).must_hit_marker == old(self).must_hit_marker,
            !(old(self).must_hit_marker matches Some((known, _)) && position < known)
                ==> final(self).must_hit_marker == Some((position, value)),
    {
        let is_later: bool = match self.must_hit_marker {
            Some((existing, _)) => position >= existing,
            None => true,
        };
        if is_later {
            self.must_hit_marker = Some((position, value));
        }
    }
}

/// The state of `mustHitSection` in section `i`: what the last marker up to and
/// with this section says, off before the first.
pub open spec fn must_hit_at(sections: Seq<SectionView>, i: int) -> bool
    decreases i + 1,
{
    if i < 0 {
        false
    } else {
        match sections[i].must_hit_marker {
            Some((_, value)) => value,
            None => must_hit_at(sections, i - 1),
        }
    }
}

/// Carries the state of `mustHitSection` through all sections in order.
pub fn resolve_must_hit_sections(sections: &mut Vec<Section>)
    ensures
        final(sections)@.len() == old(sections)@.len(),
        forall|i: int|
            0 <= i < old(sections)@.len() ==> (#[trigger] final(sections)@[i])@ == (SectionView {
                must_hit_section: must_hit_at(section_views(old(sections)@), i),
                ..old(sections)@[i]@
            }),
        forall|i: int|
            0 <= i < old(sections)@.len() ==> (#[trigger] final(sections)@[i]).must_hit_section == (
            match old(sections)@[i].must_hit_marker {
                Some((_, value)) => value,
                None => i > 0 && final(sections)@[i - 1].must_hit_section,
            }),
{
    let mut current: bool = false;
    let ghost before = section_views(sections@);
    let count: usize = sections.len();
    for i in 0..count
        invariant
            count == sections@.len() == old(sections)@.len(),
            before == section_views(old(sections)@),
            current == must_hit_at(before, i - 1),
            forall|j: int|
                0 <= j < i ==> (#[trigger] sections@[j])@ == (SectionView {
                    must_hit_section: must_hit_at(before, j),
                    ..old(sections)@[j]@
                }),
            forall|j: int| i <= j < sections@.len() ==> #[trigger] sections@[j] == old(sections)@[j],
    {
        assert(before[i as int] == old(sections)@[i as int]@);
        if let Some((_, value)) = sections[i].must_hit_marker {
            current = value;
        }
        sections[i].must_hit_section = current;
    }
    assert forall|i: int| 0 <= i < count implies (#[trigger] sections@[i]).must_hit_section == (
    match old(sections)@[i].must_hit_marker {
        Some((_, value)) => value,
        None => i > 0 && sections@[i - 1].must_hit_section,
    }) by {
        assert(before[i] == old(sections)@[i]@);
        assert(sections@[i]@.must_hit_section == must_hit_at(before, i));
        if i > 0 {
            assert(sections@[i - 1]@.must_hit_section == must_hit_at(before, i - 1));
        }
    }
}

/// Why the tempos of the sections cannot be told.
#[derive(Clone, Copy, Debug, PartialEq, Eq, Structural)]
pub enum TimingError {
    /// The marker in this section has no entry in the list of so many tempos.
    NotEnoughTempos { section: usize, entries: usize },
    /// The entry at this index is not a finite positive number.
    InvalidTempo { index: usize },
}

/// How many of the first `n` sections hold a tempo-change marker.
pub open spec fn changes_among(sections: Seq<SectionView>, n: nat) -> nat
    decreases n,
{
    if n == 0 {
        0
    } else {
        changes_among(sections, (n - 1) as nat) + if sections[n - 1].bpm_change {
            1nat
        } else {
            0nat
        }
    }
}

/// The sections that hold a tempo-change marker, in order.
pub open spec fn marked(sections: Seq<SectionView>) -> Seq<SectionView> {
    sections.filter(|s: SectionView| s.bpm_change)
}

/// The count of the sections with a tempo-change marker leaves none out.
pub proof fn markers_are_counted(sections: Seq<SectionView>, n: nat)
    requires
        n <= sections.len(),
    ensures
        changes_among(sections, n) == sections.take(n as int).filter(
            |s: SectionView| s.bpm_change,
        ).len(),
        changes_among(sections, n) == marked(sections.take(n as int)).len(),
    decreases n,
{
    reveal(Seq::filter);
    if n > 0 {
        markers_are_counted(sections, (n - 1) as nat);
        assert(sections.take(n as int).drop_last() =~= sections.take(n - 1));
    }
}

/// What is wrong with the tempo that the marker in section `i` asks for.
pub open spec fn change_error(sections: Seq<SectionView>, changes: Seq<Real>, i: int) -> Option<
    TimingError,
> {
    let index = changes_among(sections, i as nat) as int;
    if !sections[i].bpm_change {
        None
    } else if index >= changes.len() {
        Some(TimingError::NotEnoughTempos { section: i as usize, entries: changes.len() as usize })
    } else if !changes[index].spec_is_valid_bpm() {
        Some(TimingError::InvalidTempo { index: index as usize })
    } else {
        None
    }
}

/// The first thing wrong among the first `n` sections.
pub open spec fn timing_error(sections: Seq<SectionView>, changes: Seq<Real>, n: nat) -> Option<
    TimingError,
>
    decreases n,
{
    if n == 0 {
        None
    } else {
        match timing_error(sections, changes, (n - 1) as nat) {
            Some(e) => Some(e),
            None => change_error(sections, changes, n - 1),
        }
    }
}

/// The tempo of section `i`: the entry for the last marker up to and with this
/// section, the default before the first marker.
pub open spec fn tempo_at(
    sections: Seq<SectionView>,
    default_tempo: BaseTempo,
    changes: Seq<Real>,
    i: int,
) -> BaseTempo {
    let count = changes_among(sections, (i + 1) as nat);
    if count == 0 {
        default_tempo
    } else {
        BaseTempo::Given(changes[count - 1])
    }
}

proof fn lemma_timing_error_stays(sections: Seq<SectionView>, changes: Seq<Real>, n: nat, m: nat)
    requires
        n <= m,
        timing_error(sections, changes, n) is Some,
    ensures
        timing_error(sections, changes, m) == timing_error(sections, changes, n),
    decreases m,
{
    if n < m {
        lemma_timing_error_stays(sections, changes, n, (m - 1) as nat);
    }
}

/// Tells every section its tempo. A section with a tempo-change marker takes the
/// next entry of `bpm_changes`, and the sections after it keep that. Fails, and
/// changes nothing, when the entries run out or the entry is no valid tempo.
pub fn resolve_section_timing(
    sections: &mut Vec<Section>,
    default_tempo: BaseTempo,
    bpm_changes: &Vec<Real>,
) -> (r: Result<(), TimingError>)
    ensures
        match timing_error(section_views(old(sections)@), bpm_changes@, old(sections)@.len()) {
            Some(e) => r == Err::<(), TimingError>(e) && final(sections)@ == old(sections)@,
            None => {
                &&& r == Ok::<(), TimingError>(())
                &&& final(sections)@.len() == old(sections)@.len()
                &&& forall|i: int|
                    0 <= i < old(sections)@.len() ==> (#[trigger] final(sections)@[i])@ == (
                    SectionView {
                        base_tempo: tempo_at(
                            section_views(old(sections)@),
                            default_tempo,
                            bpm_changes@,
                            i,
                        ),
                        ..old(sections)@[i]@
                    })
                &&& forall|i: int|
                    0 <= i < old(sections)@.len() && !old(sections)@[i].bpm_change ==> (
                    #[trigger] final(sections)@[i]).base_tempo == if i == 0 {
                        default_tempo
                    } else {
                        final(sections)@[i - 1].base_tempo
                    }
                &&& forall|i: int|
                    0 <= i < old(sections)@.len() && old(sections)@[i].bpm_change ==> (
                    #[trigger] final(sections)@[i]).base_tempo == BaseTempo::Given(
                        bpm_changes@[marked(section_views(old(sections)@).take(i)).len() as int],
                    )
            },
        },
{
    let ghost before = section_views(sections@);
    let mut used: usize = 0;
    for i in 0..sections.len()
        invariant
            sections@ == old(sections)@,
            before == section_views(old(sections)@),
            used == changes_among(before, i as nat),
            used <= bpm_changes@.len(),
            timing_error(before, bpm_changes@, i as nat) is None,
    {
        assert(before[i as int] == sections@[i as int]@);
        if sections[i].bpm_change {
            if used >= bpm_changes.len() {
                proof {
                    lemma_timing_error_stays(before, bpm_changes@, (i + 1) as nat, before.len());
                }
                return Err(TimingError::NotEnoughTempos { section: i, entries: bpm_changes.len() });
            }
            if !bpm_changes[used].is_valid_bpm() {
                proof {
                    lemma_timing_error_stays(before, bpm_changes@, (i + 1) as nat, before.len());
                }
                return Err(TimingError::InvalidTempo { index: used });
            }
            used += 1;
        }
    }
    let mut current: BaseTempo = default_tempo;
    let mut next: usize = 0;
    let count: usize = sections.len();
    for i in 0..count
        invariant
            count == sections@.len() == old(sections)@.len(),
            before == section_views(old(sections)@),
            timing_error(before, bpm_changes@, before.len()) is None,
            next == changes_among(before, i as nat),
            next <= bpm_changes.len(),
            current == if next == 0 {
                default_tempo
            } else {
                BaseTempo::Given(bpm_changes@[next - 1])
            },
            forall|j: int|
                0 <= j < i ==> (#[trigger] sections@[j])@ == (SectionView {
                    base_tempo: tempo_at(before, default_tempo, bpm_changes@, j),
                    ..old(sections)@[j]@
                }),
            forall|j: int| i <= j < sections@.len() ==> #[trigger] sections@[j] == old(sections)@[j],
    {
        assert(before[i as int] == old(sections)@[i as int]@);
        if sections[i].bpm_change {
            proof {
                if timing_error(before, bpm_changes@, (i + 1) as nat) is Some {
                    lemma_timing_error_stays(before, bpm_changes@, (i + 1) as nat, before.len());
                }
            }
            current = BaseTempo::Given(bpm_changes[next]);
            next += 1;
        }
        sections[i].base_tempo = current;
    }
    assert forall|i: int| 0 <= i < count implies {
        let tempo = (#[trigger] sections@[i]).base_tempo;
        if old(sections)@[i].bpm_change {
            tempo == BaseTempo::Given(bpm_changes@[marked(before.take(i)).len() as int])
        } else if i == 0 {
            tempo == default_tempo
        } else {
            tempo == sections@[i - 1].base_tempo
        }
    } by {
        assert(before[i] == old(sections)@[i]@);
        assert(sections@[i]@.base_tempo == tempo_at(before, default_tempo, bpm_changes@, i));
        markers_are_counted(before, i as nat);
        if i > 0 {
            assert(sections@[i - 1]@.base_tempo == tempo_at(
                before,
                default_tempo,
                bpm_changes@,
                i - 1,
            ));
        }
    }
    Ok(())
}

/// The direction and side of a pitch, by the last entry for it.
pub open spec fn pitch_lane(mapping: Seq<PitchMapping>, pitch: u8) -> Option<(u8, bool)>
    decreases mapping.len(),
{
    if mapping.len() == 0 {
        None
    } else if mapping.last().pitch == pitch {
        Some((mapping.last().direction, mapping.last().side == Side::Player))
    } else {
        pitch_lane(mapping.drop_last(), pitch)
    }
}

/// The direction and side of every pitch.
pub fn build_pitch_lookup(preset: &ConversionPreset) -> (r: [Option<(u8, bool)>; 256])
    ensures
        forall|p: int| 0 <= p < 256 ==> #[trigger] r@[p] == pitch_lane(preset.mapping@, p as u8),
{
    let mut table: [Option<(u8, bool)>; 256] = [None; 256];
    assert(preset.mapping@.take(0) =~= seq![]);
    for i in 0..preset.mapping.len()
        invariant
            forall|p: int|
                0 <= p < 256 ==> #[trigger] table@[p] == pitch_lane(
                    preset.mapping@.take(i as int),
                    p as u8,
                ),
    {
        let m: PitchMapping = preset.mapping[i];
        table[m.pitch as usize] = Some((m.direction, m.side == Side::Player));
        proof {
            let longer = preset.mapping@.take(i + 1);
            assert(longer.drop_last() =~= preset.mapping@.take(i as int));
            assert(longer.last() == m);
        }
    }
    assert(preset.mapping@.take(preset.mapping@.len() as int) =~= preset.mapping@);
    table
}

/// The lane number of a note: four more than the direction when the note is not
/// on the side that `mustHitSection` puts first. Kept to eight bits.
pub open spec fn lane(direction: u8, player: bool, must_hit_section: bool) -> u8 {
    if player != must_hit_section {
        ((direction + 4) % 256) as u8
    } else {
        direction
    }
}

/// Computes the lane number of a note.
pub fn lane_number(direction: u8, player: bool, must_hit_section: bool) -> (r: u8)
    ensures
        r == lane(direction, player, must_hit_section),
        direction <= 251 ==> r == if player == must_hit_section {
            direction as int
        } else {
            direction + 4
        },
{
    if player != must_hit_section {
        direction.wrapping_add(4)
    } else {
        direction
    }
}

/// What notes of a section are sorted by: position, then lane number.
pub open spec fn sort_key(note: ChartNote, must_hit_section: bool) -> u64 {
    (note.position * 256 + lane(note.direction, note.player, must_hit_section)) as u64
}

/// True of notes that are sorted by position and, at one position, by lane.
pub open spec fn notes_sorted(notes: Seq<ChartNote>, must_hit_section: bool) -> bool {
    forall|i: int, j: int|
        #![trigger notes[i], notes[j]]
        0 <= i < j < notes.len() ==> {
            ||| notes[i].position < notes[j].position
            ||| notes[i].position == notes[j].position && lane(
                notes[i].direction,
                notes[i].player,
                must_hit_section,
            ) <= lane(notes[j].direction, notes[j].player, must_hit_section)
        }
}

/// Sorts the notes of a section.
pub fn sort_section(section: &mut Section)
    ensures
        notes_sorted(final(section).notes@, old(section).must_hit_section),
        final(section).notes@.to_multiset() == old(section).notes@.to_multiset(),
        final(section)@ == (SectionView { notes: final(section).notes@, ..old(section)@ }),
        forall|i: int, j: int|
            0 <= i < j < final(section).notes@.len() ==> (#[trigger] final(section).notes@[i]).position
                <= (#[trigger] final(section).notes@[j]).position,
{
    let must_hit: bool = section.must_hit_section;
    let ghost before = section.notes@;
    let mut keys: Vec<u64> = Vec::with_capacity(section.notes.len());
    for i in 0..section.notes.len()
        invariant
            section.notes@ == before,
            keys@.len() == i,
            forall|j: int| 0 <= j < i ==> #[trigger] keys@[j] == sort_key(before[j], must_hit),
    {
        let note: ChartNote = section.notes[i];
        let number: u8 = lane_number(note.direction, note.player, must_hit);
        keys.push(note.position as u64 * 256 + number as u64);
    }
    let order: Vec<usize> = sorted_order(&keys);
    let mut sorted: Vec<ChartNote> = Vec::with_capacity(order.len());
    for i in 0..order.len()
        invariant
            section.notes@ == before,
            keys@.len() == before.len(),
            orders(keys@, order@, 0, keys@.len() as int),
            sorted@ =~= reordered(before, order@).take(i as int),
    {
        assert(order@[i as int] < before.len());
        sorted.push(section.notes[order[i]]);
    }
    proof {
        assert(sorted@ =~= reordered(before, order@));
        orders_is_reordering(keys@, order@);
        reordering_keeps_items(before, order@);
        assert forall|i: int, j: int|
            #![trigger sorted@[i], sorted@[j]]
            0 <= i < j < sorted@.len() implies sort_key(sorted@[i], must_hit) <= sort_key(
            sorted@[j],
            must_hit,
        ) by {
            assert(comes_before(keys@, order@[i], order@[j]));
            assert(sorted@[i] == before[order@[i] as int]);
            assert(sorted@[j] == before[order@[j] as int]);
        }
    }
    section.notes = sorted;
}

/// What the tempo of its section makes of a note.
#[derive(Clone, Copy, Debug, PartialEq, Eq, Structural)]
pub struct NoteTiming {
    /// Time in milliseconds, rounded.
    pub time: Real,
    /// The note is at least as long as the sustain threshold.
    pub reaches_threshold: bool,
    /// Length in milliseconds without the first step, at least zero.
    pub tail: Real,
    /// The same, rounded.
    pub rounded_tail: Real,
}

/// A note as it is written: the shortest form that says everything.
#[derive(Clone, Copy, Debug, PartialEq, Eq)]
pub enum NoteJson {
    /// Time and lane.
    Short(Real, u8),
    /// Time, lane and tail.
    Sustained(Real, u8, Real),
    /// Time, lane, tail and type.
    Full(Real, u8, Real, &'static str),
}

/// A number for no tail.
pub open spec fn no_tail() -> Real {
    Real { bits: 0 }
}

/// A note has a tail when it is forced to or long enough.
pub open spec fn has_tail(note: ChartNote, timing: NoteTiming) -> bool {
    note.force_sustain || timing.reaches_threshold
}

/// How a note is written. Only notes of the player can be alt notes.
pub open spec fn note_json(
    note: ChartNote,
    alt: bool,
    must_hit_section: bool,
    trim_sustains: bool,
    timing: NoteTiming,
) -> NoteJson {
    let data = lane(note.direction, note.player, must_hit_section);
    let tail = if has_tail(note, timing) {
        timing.tail
    } else {
        no_tail()
    };
    let written = if has_tail(note, timing) {
        timing.rounded_tail
    } else {
        no_tail()
    };
    if (alt || note.portamento) && note.player {
        NoteJson::Full(timing.time, data, written, "Alt Animation")
    } else if trim_sustains && tail.spec_is_zero() {
        NoteJson::Short(timing.time, data)
    } else {
        NoteJson::Sustained(timing.time, data, written)
    }
}

/// Gives the written form of a note.
pub fn build_note_json(
    note: &ChartNote,
    alt: bool,
    must_hit_section: bool,
    trim_sustains: bool,
    timing: &NoteTiming,
) -> (r: NoteJson)
    ensures
        r == note_json(*note, alt, must_hit_section, trim_sustains, *timing),
        (note.force_sustain || timing.reaches_threshold) ==> (r matches NoteJson::Sustained(_, _, tail)
            ==> tail == timing.rounded_tail) && (r matches NoteJson::Full(_, _, tail, _) ==> tail
            == timing.rounded_tail),
{
    let sustained: bool = note.force_sustain || timing.reaches_threshold;
    let tail: Real = if sustained {
        timing.tail
    } else {
        Real::zero()
    };
    let written: Real = if sustained {
        timing.rounded_tail
    } else {
        Real::zero()
    };
    let data: u8 = lane_number(note.direction, note.player, must_hit_section);
    if (alt || note.portamento) && note.player {
        NoteJson::Full(timing.time, data, written, "Alt Animation")
    } else if trim_sustains && tail.is_zero() {
        NoteJson::Short(timing.time, data)
    } else {
        NoteJson::Sustained(timing.time, data, written)
    }
}

/// A section as it is written.
#[derive(Clone, Debug, PartialEq, Eq)]
pub struct SectionJson {
    pub section_notes: Vec<NoteJson>,
    pub length_in_steps: u32,
    pub must_hit_section: bool,
    /// Only where the tempo changes.
    pub change_bpm: Option<bool>,
    /// Only where the tempo changes.
    pub bpm: Option<Real>,
    /// Only where there is an `altAnim` marker.
    pub alt_anim: Option<bool>,
}

/// Steps in a section.
pub const SECTION_STEPS: u32 = 16;

/// Gives the written form of a section, from its notes, what the tempo makes of
/// each of them, and the tempo itself.
pub fn render_section(
    section: &Section,
    timings: &Vec<NoteTiming>,
    trim_sustains: bool,
    chart_bpm: Real,
) -> (r: SectionJson)
    requires
        timings@.len() == section.notes@.len(),
    ensures
        r.section_notes@.len() == section.notes@.len(),
        forall|i: int|
            0 <= i < section.notes@.len() ==> #[trigger] r.section_notes@[i] == note_json(
                section.notes@[i],
                section.alt,
                section.must_hit_section,
                trim_sustains,
                timings@[i],
            ),
        r.length_in_steps == SECTION_STEPS,
        r.length_in_steps == 16,
        r.must_hit_section == section.must_hit_section,
        r.change_bpm == if section.bpm_change {
            Some(true)
        } else {
            None
        },
        r.bpm == if section.bpm_change {
            Some(chart_bpm)
        } else {
            None
        },
        r.alt_anim == if section.alt_anim {
            Some(true)
        } else {
            None
        },
{
    let mut section_notes: Vec<NoteJson> = Vec::with_capacity(section.notes.len());
    for i in 0..section.notes.len()
        invariant
            timings@.len() == section.notes@.len(),
            section_notes@.len() == i,
            forall|j: int|
                0 <= j < i ==> #[trigger] section_notes@[j] == note_json(
                    section.notes@[j],
                    section.alt,
                    section.must_hit_section,
                    trim_sustains,
                    timings@[j],
                ),
    {
        section_notes.push(
            build_note_json(
                &section.notes[i],
                section.alt,
                section.must_hit_section,
                trim_sustains,
                &timings[i],
            ),
        );
    }
    SectionJson {
        section_notes,
        length_in_steps: SECTION_STEPS,
        must_hit_section: section.must_hit_section,
        change_bpm: if section.bpm_change {
            Some(true)
        } else {
            None
        },
        bpm: if section.bpm_change {
            Some(chart_bpm)
        } else {
            None
        },
        alt_anim: if section.alt_anim {
            Some(true)
        } else {
            None
        },
    }
}

/// Only notes of the player that are marked as alt notes carry a type, and the type
/// is always the same: an empty one is never written, and opponent notes have none.
pub proof fn only_player_alt_notes_have_a_type(
    note: ChartNote,
    alt: bool,
    must_hit_section: bool,
    trim_sustains: bool,
    timing: NoteTiming,
)
    ensures
        ({
            let written = note_json(note, alt, must_hit_section, trim_sustains, timing);
            &&& written is Full <==> note.player && (alt || note.portamento)
            &&& written matches NoteJson::Full(_, _, _, kind) ==> kind@ == "Alt Animation"@
        }),
{
}

/// Every written note carries its time and its lane number, whatever its form.
pub proof fn written_notes_keep_time_and_lane(
    note: ChartNote,
    alt: bool,
    must_hit_section: bool,
    trim_sustains: bool,
    timing: NoteTiming,
)
    ensures
        match note_json(note, alt, must_hit_section, trim_sustains, timing) {
            NoteJson::Short(time, data) => time == timing.time && data == lane(
                note.direction,
                note.player,
                must_hit_section,
            ),
            NoteJson::Sustained(time, data, _) => time == timing.time && data == lane(
                note.direction,
                note.player,
                must_hit_section,
            ),
            NoteJson::Full(time, data, _, _) => time == timing.time && data == lane(
                note.direction,
                note.player,
                must_hit_section,
            ),
        },
{
}

/// `mustHitSection` starts off and keeps its value over sections without a marker.
pub proof fn must_hit_carries_forward(sections: Seq<SectionView>, i: int, j: int)
    requires
        -1 <= i <= j < sections.len(),
        forall|k: int| i < k <= j ==> (#[trigger] sections[k]).must_hit_marker is None,
    ensures
        must_hit_at(sections, j) == must_hit_at(sections, i),
        i < 0 ==> !must_hit_at(sections, j),
    decreases j - i,
{
    if i < j {
        must_hit_carries_forward(sections, i, j - 1);
        assert(sections[j].must_hit_marker is None);
    }
}

/// The tempo keeps its value over sections without a tempo-change marker; before
/// the first marker it is the default.
pub proof fn tempo_carries_forward(
    sections: Seq<SectionView>,
    default_tempo: BaseTempo,
    changes: Seq<Real>,
    i: int,
    j: int,
)
    requires
        -1 <= i <= j < sections.len(),
        forall|k: int| i < k <= j ==> !(#[trigger] sections[k]).bpm_change,
    ensures
        tempo_at(sections, default_tempo, changes, j) == tempo_at(sections, default_tempo, changes, i),
        i < 0 ==> tempo_at(sections, default_tempo, changes, j) == default_tempo,
    decreases j - i,
{
    if i < j {
        tempo_carries_forward(sections, default_tempo, changes, i, j - 1);
        assert(!sections[j].bpm_change);
    }
}

/// A section with a tempo-change marker has the entry that follows those of all
/// earlier markers.
pub proof fn marker_brings_next_tempo(
    sections: Seq<SectionView>,
    default_tempo: BaseTempo,
    changes: Seq<Real>,
    i: int,
)
    requires
        0 <= i < sections.len(),
        sections[i].bpm_change,
    ensures
        tempo_at(sections, default_tempo, changes, i) == BaseTempo::Given(
            changes[changes_among(sections, i as nat) as int],
        ),
{
}

/// The tempos can be told exactly when there is an entry for every section with a
/// marker, and all those entries are valid.
pub proof fn timing_succeeds_with_enough_valid_tempos(
    sections: Seq<SectionView>,
    changes: Seq<Real>,
    n: nat,
)
    requires
        n <= sections.len(),
    ensures
        timing_error(sections, changes, n) is None <==> {
            &&& changes_among(sections, n) <= changes.len()
            &&& forall|k: int|
                0 <= k < changes_among(sections, n) ==> (#[trigger] changes[k]).spec_is_valid_bpm()
        },
    decreases n,
{
    if n > 0 {
        let m = (n - 1) as nat;
        timing_succeeds_with_enough_valid_tempos(sections, changes, m);
    }
}

/// A pitch has the direction and side of the last entry for it.
pub proof fn last_entry_for_a_pitch_counts(mapping: Seq<PitchMapping>, pitch: u8, k: int)
    requires
        0 <= k < mapping.len(),
        mapping[k].pitch == pitch,
        forall|m: int| k < m < mapping.len() ==> (#[trigger] mapping[m]).pitch != pitch,
    ensures
        pitch_lane(mapping, pitch) == Some((mapping[k].direction, mapping[k].side == Side::Player)),
    decreases mapping.len(),
{
    if k < mapping.len() - 1 {
        assert(mapping[mapping.len() - 1].pitch != pitch);
        last_entry_for_a_pitch_counts(mapping.drop_last(), pitch, k);
    }
}

/// A pitch that no entry is for has no lane.
pub proof fn pitch_without_entry_has_no_lane(mapping: Seq<PitchMapping>, pitch: u8)
    requires
        forall|k: int| 0 <= k < mapping.len() ==> (#[trigger] mapping[k]).pitch != pitch,
    ensures
        pitch_lane(mapping, pitch) is None,
    decreases mapping.len(),
{
    if mapping.len() > 0 {
        assert(mapping[mapping.len() - 1].pitch != pitch);
        pitch_without_entry_has_no_lane(mapping.drop_last(), pitch);
    }
}

/// From a marker on, up to the next one, `mustHitSection` is what the marker says,
/// wherever in its section the marker stands and whatever was said before.
pub proof fn must_hit_follows_last_marker(
    sections: Seq<SectionView>,
    i: int,
    k: int,
    position: u32,
    value: bool,
)
    requires
        0 <= k <= i < sections.len(),
        sections[k].must_hit_marker == Some((position, value)),
        forall|m: int| k < m <= i ==> (#[trigger] sections[m]).must_hit_marker is None,
    ensures
        must_hit_at(sections, i) == value,
    decreases i - k,
{
    if k < i {
        assert(sections[i].must_hit_marker is None);
        must_hit_follows_last_marker(sections, i - 1, k, position, value);
    }
}

/// The section with marker number `k`, counted from zero, is the first to have entry
/// `k` of the list of tempos; it and every section up to the next marker have it.
pub proof fn tempos_go_in_order(
    sections: Seq<SectionView>,
    default_tempo: BaseTempo,
    changes: Seq<Real>,
    i: int,
)
    requires
        0 <= i < sections.len(),
    ensures
        ({
            let before = sections.take(i).filter(|s: SectionView| s.bpm_change).len();
            let upto = sections.take(i + 1).filter(|s: SectionView| s.bpm_change).len();
            &&& sections[i].bpm_change ==> tempo_at(sections, default_tempo, changes, i)
                == BaseTempo::Given(changes[before as int])
            &&& upto > 0 ==> tempo_at(sections, default_tempo, changes, i) == BaseTempo::Given(
                changes[upto - 1],
            )
            &&& upto == 0 ==> tempo_at(sections, default_tempo, changes, i) == default_tempo
        }),
{
    markers_are_counted(sections, i as nat);
    markers_are_counted(sections, (i + 1) as nat);
}

/// What is wrong with the tempos is told of the first marker that has no entry, or an
/// entry that is not finite and positive.
pub proof fn first_bad_tempo_is_told(sections: Seq<SectionView>, changes: Seq<Real>, n: nat)
    requires
        n <= sections.len(),
        sections.len() <= usize::MAX,
        changes.len() <= usize::MAX,
    ensures
        match timing_error(sections, changes, n) {
            None => sections.take(n as int).filter(|s: SectionView| s.bpm_change).len()
                <= changes.len() && forall|k: int|
                0 <= k < sections.take(n as int).filter(|s: SectionView| s.bpm_change).len()
                    ==> 0 < (#[trigger] changes[k]).bits < 0x7ff0_0000_0000_0000,
            Some(TimingError::NotEnoughTempos { section, entries }) => {
                &&& section < n
                &&& sections[section as int].bpm_change
                &&& entries == changes.len()
                &&& sections.take(section as int).filter(|s: SectionView| s.bpm_change).len()
                    == changes.len()
                &&& forall|k: int|
                    0 <= k < changes.len() ==> 0 < (#[trigger] changes[k]).bits
                        < 0x7ff0_0000_0000_0000
            },
            Some(TimingError::InvalidTempo { index }) => {
                &&& index < changes.len()
                &&& !(0 < changes[index as int].bits < 0x7ff0_0000_0000_0000)
                &&& index < sections.take(n as int).filter(|s: SectionView| s.bpm_change).len()
                &&& forall|k: int|
                    0 <= k < index ==> 0 < (#[trigger] changes[k]).bits < 0x7ff0_0000_0000_0000
            },
        },
    decreases n,
{
    markers_are_counted(sections, n);
    if n > 0 {
        first_bad_tempo_is_told(sections, changes, (n - 1) as nat);
        markers_are_counted(sections, (n - 1) as nat);
    }
}

/// A note that is forced to have a tail, or long enough, is written with its rounded
/// length; any other with the number zero. A note without a tail and without a type is
/// written short where short notes are asked for.
pub proof fn tails_are_written(
    note: ChartNote,
    alt: bool,
    must_hit_section: bool,
    trim_sustains: bool,
    timing: NoteTiming,
)
    ensures
        ({
            let written = note_json(note, alt, must_hit_section, trim_sustains, timing);
            let sustained = note.force_sustain || timing.reaches_threshold;
            let nothing = !sustained || timing.tail.bits == 0 || timing.tail.bits
                == 0x8000_0000_0000_0000;
            let typed = note.player && (alt || note.portamento);
            &&& written is Short <==> trim_sustains && nothing && !typed
            &&& written matches NoteJson::Sustained(_, _, tail) ==> tail == (if sustained {
                timing.rounded_tail
            } else {
                Real { bits: 0 }
            })
            &&& written matches NoteJson::Full(_, _, tail, _) ==> tail == (if sustained {
                timing.rounded_tail
            } else {
                Real { bits: 0 }
            })
        }),
{
}

/// The lane number of a direction tells the direction, and whether the note is on the
/// side that `mustHitSection` puts first: lanes 0 to 3 are, lanes 4 to 7 are not.
pub proof fn lanes_tell_direction_and_side(direction: u8, player: bool, must_hit_section: bool)
    ensures
        lane(direction, player, must_hit_section) as int == (direction + if player
            == must_hit_section {
            0int
        } else {
            4int
        }) % 256,
        direction < 4 ==> lane(direction, player, must_hit_section) < 8 && lane(
            direction,
            player,
            must_hit_section,
        ) % 4 == direction && (lane(direction, player, must_hit_section) < 4 <==> player
            == must_hit_section),
{
}

/// Sorted notes stand in the order of their positions, and at one position in the
/// order of their lane numbers.
pub proof fn sorted_means_by_position_and_lane(notes: Seq<ChartNote>, must_hit_section: bool)
    ensures
        notes_sorted(notes, must_hit_section) <==> forall|i: int, j: int|
            #![trigger notes[i], notes[j]]
            0 <= i < j < notes.len() ==> notes[i].position <= notes[j].position && (
            notes[i].position == notes[j].position ==> (notes[i].direction + if notes[i].player
                == must_hit_section {
                0int
            } else {
                4int
            }) % 256 <= (notes[j].direction + if notes[j].player == must_hit_section {
                0int
            } else {
                4int
            }) % 256),
{
    if notes_sorted(notes, must_hit_section) {
        assert forall|i: int, j: int|
            #![trigger notes[i], notes[j]]
            0 <= i < j < notes.len() implies notes[i].position <= notes[j].position && (
        notes[i].position == notes[j].position ==> (notes[i].direction + if notes[i].player
            == must_hit_section {
            0int
        } else {
            4int
        }) % 256 <= (notes[j].direction + if notes[j].player == must_hit_section {
            0int
        } else {
            4int
        }) % 256) by {}
    }
}

/// A section starts without notes and markers.
pub proof fn empty_section_holds_nothing()
    ensures
        empty_section().notes.len() == 0,
        !empty_section().alt && !empty_section().bpm_change && !empty_section().alt_anim,
        empty_section().must_hit_marker is None,
        !empty_section().must_hit_section,
{
}

/// What is seen of sections is everything they hold.
pub proof fn views_show_whole_sections(sections: Seq<Section>, i: int)
    requires
        0 <= i < sections.len(),
    ensures
        section_views(sections).len() == sections.len(),
        ({
            let seen = section_views(sections)[i];
            &&& seen.alt == sections[i].alt
            &&& seen.bpm_change == sections[i].bpm_change
            &&& seen.alt_anim == sections[i].alt_anim
            &&& seen.must_hit_marker == sections[i].must_hit_marker
            &&& seen.must_hit_section == sections[i].must_hit_section
            &&& seen.base_tempo == sections[i].base_tempo
            &&& seen.notes == sections[i].notes@
        }),
{
}

} // verus!
