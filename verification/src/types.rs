//! Data types shared by the parsing, conversion and command modules.

use crate::number::Real;
use crate::text::{format_count, grouped, put};
use vstd::prelude::*;

verus! {

/// Which pipeline to run.
#[derive(Clone, Copy, Debug, PartialEq, Eq, Structural)]
pub enum ConversionMode {
    /// One input, one chart.
    Single,
    /// Several inputs on one shared timeline, one chart.
    Merge,
    /// One project, up to three charts: easy, normal and hard.
    SplitDifficulties,
    /// Several inputs, one chart each.
    Batch,
}

/// What a look at a project or score shows.
#[derive(Clone, Debug, PartialEq, Eq)]
pub struct FlpInfo {
    /// The project tempo in thousandths of a beat per minute; a score has none.
    pub tempo: Option<u32>,
    pub patterns: Vec<PatternInfo>,
}

/// A pattern of a project.
#[derive(Clone, Debug, PartialEq, Eq)]
pub struct PatternInfo {
    pub id: u16,
    pub name: String,
    pub note_count: usize,
    /// Number of tempo-change markers among the notes.
    pub bpm_change_count: usize,
}

/// A pattern as mathematical values.
#[verifier::ext_equal]
pub struct PatternView {
    pub id: u16,
    pub name: Seq<char>,
    pub note_count: nat,
    pub bpm_change_count: nat,
}

impl View for PatternInfo {
    type V = PatternView;

    open spec fn view(&self) -> PatternView {
        PatternView {
            id: self.id,
            name: self.name@,
            note_count: self.note_count as nat,
            bpm_change_count: self.bpm_change_count as nat,
        }
    }
}

/// The views of some patterns.
pub open spec fn pattern_views(patterns: Seq<PatternInfo>) -> Seq<PatternView> {
    patterns.map_values(|p: PatternInfo| p@)
}

impl PatternInfo {
    /// The label of a pattern: its name, then the note count in brackets.
    pub fn display_name(&self) -> (r: String)
        ensures
            r@ == self.name@ + " ("@ + grouped(self.note_count as nat) + " notes)"@,
    {
        let mut out: String = self.name.clone();
        put(&mut out, " (");
        put(&mut out, format_count(self.note_count as u64).as_str());
        put(&mut out, " notes)");
        out
    }
}

/// The pattern found for each difficulty, if any.
#[derive(Clone, Copy, Debug, PartialEq, Eq, Structural)]
pub struct DifficultySlots {
    pub easy: Option<u16>,
    pub normal: Option<u16>,
    pub hard: Option<u16>,
}

impl DifficultySlots {
    /// Whether at least one difficulty was found.
    pub fn any(&self) -> (r: bool)
        ensures
            r == (self.easy is Some || self.normal is Some || self.hard is Some),
    {
        self.easy.is_some() || self.normal.is_some() || self.hard.is_some()
    }
}

impl Default for DifficultySlots {
    fn default() -> (r: Self)
        ensures
            r == (DifficultySlots { easy: None, normal: None, hard: None }),
    {
        DifficultySlots { easy: None, normal: None, hard: None }
    }
}

/// The side of the chart that a pitch belongs to.
#[derive(Clone, Copy, Debug, PartialEq, Eq, Structural)]
pub enum Side {
    Player,
    Opponent,
}

/// Maps a MIDI pitch to a side and a direction (0 to 3).
#[derive(Clone, Copy, Debug, PartialEq, Eq, Structural)]
pub struct PitchMapping {
    pub pitch: u8,
    pub side: Side,
    pub direction: u8,
}

/// The settings of one conversion.
#[derive(Clone, Debug, PartialEq, Eq)]
pub struct ConversionPreset {
    pub song_name: String,
    pub pattern_id: u16,
    pub player1: String,
    pub player2: String,
    pub gf_version: String,
    pub stage: String,
    pub song_creator: String,
    pub needs_voices: bool,
    pub bpm_multiplier: Real,
    pub decimals: u8,
    /// Scroll speed; without one it follows the tempo.
    pub speed: Option<Real>,
    pub sustain_threshold_steps: Real,
    pub trim_sustains: bool,
    pub pretty_json: bool,
    /// Write notes and song metadata to separate files.
    pub split_metadata: bool,
    pub alt_marker_pitch: u8,
    pub mapping: Vec<PitchMapping>,
    /// The base tempos that the tempo-change markers bring in, in order.
    pub bpm_changes: Vec<Real>,
    /// Base tempo to use in place of the project's own.
    pub base_bpm_override: Option<Real>,
}

/// The bit pattern of 1.
pub const ONE_BITS: u64 = 0x3ff0_0000_0000_0000;

/// The bit pattern of 4.
pub const FOUR_BITS: u64 = 0x4010_0000_0000_0000;

/// The lowest of the four pitches of the player.
pub const PLAYER_BASE_PITCH: u8 = 48;

/// The lowest of the four pitches of the opponent.
pub const OPPONENT_BASE_PITCH: u8 = 60;

/// The default layout: four player pitches from 48, four opponent pitches from
/// 60, each in the order of the directions.
pub open spec fn default_mapping() -> Seq<PitchMapping> {
    Seq::new(
        8,
        |i: int|
            if i < 4 {
                PitchMapping {
                    pitch: (PLAYER_BASE_PITCH + i) as u8,
                    side: Side::Player,
                    direction: i as u8,
                }
            } else {
                PitchMapping {
                    pitch: (OPPONENT_BASE_PITCH + (i - 4)) as u8,
                    side: Side::Opponent,
                    direction: (i - 4) as u8,
                }
            },
    )
}

impl Default for ConversionPreset {
    fn default() -> (r: Self)
        ensures
            r.song_name@ == "untitled"@,
            r.pattern_id == 1,
            r.player1@ == "bf"@,
            r.player2@ == "dad"@,
            r.gf_version@ == "gf"@,
            r.stage@ == "stage"@,
            r.song_creator@ == ""@,
            r.needs_voices,
            r.bpm_multiplier == (Real { bits: ONE_BITS }),
            r.bpm_multiplier.bits == 0x3ff0_0000_0000_0000,
            r.decimals == 6,
            r.speed is None,
            r.sustain_threshold_steps == (Real { bits: FOUR_BITS }),
            r.sustain_threshold_steps.bits == 0x4010_0000_0000_0000,
            !r.trim_sustains,
            !r.pretty_json,
            !r.split_metadata,
            r.alt_marker_pitch == 58,
            r.mapping@ == default_mapping(),
            r.bpm_changes@.len() == 0,
            r.base_bpm_override is None,
    {
        let mut mapping: Vec<PitchMapping> = Vec::with_capacity(8);
        for i in 0u8..4
            invariant
                mapping@ =~= default_mapping().take(i as int),
        {
            mapping.push(
                PitchMapping { pitch: PLAYER_BASE_PITCH + i, side: Side::Player, direction: i },
            );
        }
        for i in 0u8..4
            invariant
                mapping@ =~= default_mapping().take(4 + i),
        {
            mapping.push(
                PitchMapping { pitch: OPPONENT_BASE_PITCH + i, side: Side::Opponent, direction: i },
            );
        }
        ConversionPreset {
            song_name: "untitled".to_owned(),
            pattern_id: 1,
            player1: "bf".to_owned(),
            player2: "dad".to_owned(),
            gf_version: "gf".to_owned(),
            stage: "stage".to_owned(),
            song_creator: "".to_owned(),
            needs_voices: true,
            bpm_multiplier: Real { bits: ONE_BITS },
            decimals: 6,
            speed: None,
            sustain_threshold_steps: Real { bits: FOUR_BITS },
            trim_sustains: false,
            pretty_json: false,
            split_metadata: false,
            alt_marker_pitch: 58,
            mapping,
            bpm_changes: Vec::new(),
            base_bpm_override: None,
        }
    }
}

/// A report on how far a conversion has come.
#[derive(Clone, Copy, Debug, PartialEq, Eq)]
pub enum Progress {
    /// A new stage begins.
    Stage(&'static str),
    /// So many of all notes (or sections) of the stage are done.
    Notes { done: usize, total: usize },
}

/// Fewest notes between two reports.
pub const PROGRESS_BATCH: usize = 65_536;

/// True when a report is due after the item with this index: at the start of
/// every batch and after the last item.
pub open spec fn report_due(index: int, total: int) -> bool {
    index % (PROGRESS_BATCH as int) == 0 || index + 1 == total
}

/// The reports that are due over the first `done` of `total` items.
pub open spec fn item_reports(done: nat, total: nat) -> Seq<Progress>
    decreases done,
{
    if done == 0 {
        seq![]
    } else {
        let earlier = item_reports((done - 1) as nat, total);
        if report_due(done - 1, total as int) {
            earlier.push(Progress::Notes { done: done as usize, total: total as usize })
        } else {
            earlier
        }
    }
}

/// Records the report on the item at `index`, if one is due.
pub(crate) fn report_item(index: usize, total: usize, log: &mut Vec<Progress>)
    requires
        index < total,
    ensures
        report_due(index as int, total as int) ==> final(log)@ == old(log)@.push(
            Progress::Notes { done: (index + 1) as usize, total },
        ),
        !report_due(index as int, total as int) ==> final(log)@ == old(log)@,
{
    if index % PROGRESS_BATCH == 0 || index + 1 == total {
        log.push(Progress::Notes { done: index + 1, total });
    }
}

/// What is told of a finished conversion.
#[derive(Clone, Debug, PartialEq, Eq)]
pub struct Stats {
    /// Number of notes, with separators.
    pub notes: String,
    /// Number of sections, with separators.
    pub sections: String,
    /// Duration in milliseconds.
    pub time: Real,
    /// Number of files written.
    pub files: usize,
    /// What went less well than it should; empty when nothing did.
    pub warnings: String,
}

impl Default for Stats {
    fn default() -> (r: Self)
        ensures
            r.notes@ == Seq::<char>::empty(),
            r.sections@ == Seq::<char>::empty(),
            r.time == (Real { bits: 0 }),
            r.files == 0,
            r.warnings@ == Seq::<char>::empty(),
    {
        Stats {
            notes: String::new(),
            sections: String::new(),
            time: Real::zero(),
            files: 0,
            warnings: String::new(),
        }
    }
}

/// Progress on items is reported on the first, on every 65536th after it and on the last.
pub proof fn items_are_reported_now_and_then(done: nat, total: nat)
    requires
        done < total <= usize::MAX,
    ensures
        item_reports(0, total) == Seq::<Progress>::empty(),
        done % 65536 == 0 || done + 1 == total ==> item_reports(done + 1, total) == item_reports(
            done,
            total,
        ).push(Progress::Notes { done: (done + 1) as usize, total: total as usize }),
        !(done % 65536 == 0 || done + 1 == total) ==> item_reports(done + 1, total) == item_reports(
            done,
            total,
        ),
{
}

/// By default the keys from 48 on are the four directions of the player, and those from
/// 60 on the four of the opponent.
pub proof fn default_keys(i: int)
    requires
        0 <= i < 4,
    ensures
        default_mapping().len() == 8,
        default_mapping()[i].pitch == 48 + i,
        default_mapping()[i].side == Side::Player,
        default_mapping()[i].direction == i,
        default_mapping()[4 + i].pitch == 60 + i,
        default_mapping()[4 + i].side == Side::Opponent,
        default_mapping()[4 + i].direction == i,
{
}

/// What is seen of patterns is everything that is known of them.
pub proof fn views_show_whole_patterns(patterns: Seq<PatternInfo>, i: int)
    requires
        0 <= i < patterns.len(),
    ensures
        pattern_views(patterns).len() == patterns.len(),
        pattern_views(patterns)[i].id == patterns[i].id,
        pattern_views(patterns)[i].name == patterns[i].name@,
        pattern_views(patterns)[i].note_count == patterns[i].note_count,
        pattern_views(patterns)[i].bpm_change_count == patterns[i].bpm_change_count,
{
}

} // verus!
