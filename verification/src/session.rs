//! The state behind the window: selected inputs, what is known of them, and how a
//! conversion is going.

use crate::cli::Direction;
use crate::inspect::{
    changes_of, find_pattern, first_pattern_with_id_is_found, pattern_with_id, unknown_id_is_not_found,
};
use crate::number::Real;
use crate::output::{plural, plural_text};
use crate::report::{closing_line, summary};
use crate::text::{decimal, decimal_text, grouped, put};
use crate::types::{
    pattern_views, ConversionMode, ConversionPreset, PatternInfo, PatternView, Progress, Stats,
};
use vstd::prelude::*;
use vstd::slice::slice_subrange;

verus! {

/// The files that are selected, over paths of type `P`, by the mode.
#[derive(Clone, Debug, PartialEq, Eq)]
pub enum PipelineInputs<P> {
    Single(Option<P>),
    Merge(Vec<P>),
    SplitDifficulties(Option<P>),
    Batch(Vec<P>),
}

/// The path, if there is one, as a sequence.
pub open spec fn as_seq<P>(path: Option<P>) -> Seq<P> {
    match path {
        Some(p) => seq![p],
        None => seq![],
    }
}

impl<P> PipelineInputs<P> {
    /// The selected files in order.
    pub open spec fn paths(self) -> Seq<P> {
        match self {
            PipelineInputs::Single(p) => as_seq(p),
            PipelineInputs::SplitDifficulties(p) => as_seq(p),
            PipelineInputs::Merge(v) => v@,
            PipelineInputs::Batch(v) => v@,
        }
    }

    /// The mode.
    pub open spec fn spec_mode(self) -> ConversionMode {
        match self {
            PipelineInputs::Single(_) => ConversionMode::Single,
            PipelineInputs::SplitDifficulties(_) => ConversionMode::SplitDifficulties,
            PipelineInputs::Merge(_) => ConversionMode::Merge,
            PipelineInputs::Batch(_) => ConversionMode::Batch,
        }
    }

    /// The first file.
    pub fn primary(&self) -> (r: Option<&P>)
        ensures
            match r {
                Some(p) => self.paths().len() > 0 && *p == self.paths()[0],
                None => self.paths().len() == 0,
            },
    {
        match self {
            PipelineInputs::Single(p) => p.as_ref(),
            PipelineInputs::SplitDifficulties(p) => p.as_ref(),
            PipelineInputs::Merge(v) => {
                if v.len() > 0 {
                    Some(&v[0])
                } else {
                    None
                }
            },
            PipelineInputs::Batch(v) => {
                if v.len() > 0 {
                    Some(&v[0])
                } else {
                    None
                }
            },
        }
    }

    /// The files behind the first.
    pub fn extra(&self) -> (r: &[P])
        ensures
            r@ == if self.paths().len() > 0 {
                self.paths().skip(1)
            } else {
                seq![]
            },
    {
        match self {
            PipelineInputs::Single(_) => &[],
            PipelineInputs::SplitDifficulties(_) => &[],
            PipelineInputs::Merge(v) => rest_of(v),
            PipelineInputs::Batch(v) => rest_of(v),
        }
    }

    /// The mode.
    pub fn mode(&self) -> (r: ConversionMode)
        ensures
            r == self.spec_mode(),
    {
        match self {
            PipelineInputs::Single(_) => ConversionMode::Single,
            PipelineInputs::SplitDifficulties(_) => ConversionMode::SplitDifficulties,
            PipelineInputs::Merge(_) => ConversionMode::Merge,
            PipelineInputs::Batch(_) => ConversionMode::Batch,
        }
    }
}

/// All but the first item.
fn rest_of<P>(v: &Vec<P>) -> (r: &[P])
    ensures
        r@ == if v@.len() > 0 {
            v@.skip(1)
        } else {
            seq![]
        },
{
    if v.len() == 0 {
        v.as_slice()
    } else {
        slice_subrange(v.as_slice(), 1, v.len())
    }
}

/// How the selected files are shown; `first` is the first one as it is shown.
pub open spec fn inputs_text(mode: ConversionMode, count: nat, first: Seq<char>) -> Seq<char> {
    if mode == ConversionMode::Single || mode == ConversionMode::SplitDifficulties {
        if count == 0 {
            "No input selected"@
        } else {
            first
        }
    } else if count == 0 {
        "No inputs selected"@
    } else {
        decimal(count) + " FLPs (first: "@ + first + ")"@
    }
}

impl<P> PipelineInputs<P> {
    /// The number of selected files.
    pub fn count(&self) -> (r: usize)
        ensures
            r == self.paths().len(),
    {
        match self {
            PipelineInputs::Single(p) | PipelineInputs::SplitDifficulties(p) => {
                if p.is_some() {
                    1
                } else {
                    0
                }
            },
            PipelineInputs::Merge(v) | PipelineInputs::Batch(v) => v.len(),
        }
    }

    /// Sums up the selected files; `first` is the first one as it is shown.
    pub fn display(&self, first: &str) -> (r: String)
        ensures
            r@ == inputs_text(self.spec_mode(), self.paths().len(), first@),
    {
        let count: usize = self.count();
        match self {
            PipelineInputs::Single(_) | PipelineInputs::SplitDifficulties(_) => {
                if count == 0 {
                    "No input selected".to_owned()
                } else {
                    first.to_owned()
                }
            },
            PipelineInputs::Merge(_) | PipelineInputs::Batch(_) => {
                if count == 0 {
                    "No inputs selected".to_owned()
                } else {
                    let mut out: String = decimal_text(count as u64);
                    put(&mut out, " FLPs (first: ");
                    put(&mut out, first);
                    put(&mut out, ")");
                    out
                }
            },
        }
    }

    /// Changes the mode; of the selected files only the first is kept.
    pub fn switched(self, new_mode: ConversionMode) -> (r: Self)
        ensures
            r.spec_mode() == new_mode,
            r.paths() == self.paths().take(
                if self.paths().len() > 0 {
                    1
                } else {
                    0
                },
            ),
    {
        let ghost before = self.paths();
        let first: Option<P> = match self {
            PipelineInputs::Single(p) => p,
            PipelineInputs::SplitDifficulties(p) => p,
            PipelineInputs::Merge(v) => first_of(v),
            PipelineInputs::Batch(v) => first_of(v),
        };
        assert(as_seq(first) =~= before.take(
            if before.len() > 0 {
                1
            } else {
                0
            },
        ));
        match new_mode {
            ConversionMode::Single => PipelineInputs::Single(first),
            ConversionMode::SplitDifficulties => PipelineInputs::SplitDifficulties(first),
            ConversionMode::Merge => PipelineInputs::Merge(list_of(first)),
            ConversionMode::Batch => PipelineInputs::Batch(list_of(first)),
        }
    }

    /// Selects one file in place of all others; for the modes with one input. Other
    /// modes are left as they are.
    pub fn select(self, path: P) -> (r: Self)
        ensures
            r.spec_mode() == self.spec_mode(),
            r.paths() == if self.spec_mode() == ConversionMode::Single || self.spec_mode()
                == ConversionMode::SplitDifficulties {
                seq![path]
            } else {
                self.paths()
            },
    {
        match self {
            PipelineInputs::Single(_) => PipelineInputs::Single(Some(path)),
            PipelineInputs::SplitDifficulties(_) => PipelineInputs::SplitDifficulties(Some(path)),
            PipelineInputs::Merge(v) => PipelineInputs::Merge(v),
            PipelineInputs::Batch(v) => PipelineInputs::Batch(v),
        }
    }

    /// Adds files behind those that are selected; for the modes with several
    /// inputs. Other modes are left as they are.
    pub fn append(self, more: Vec<P>) -> (r: Self)
        ensures
            r.spec_mode() == self.spec_mode(),
            r.paths() == if self.spec_mode() == ConversionMode::Merge || self.spec_mode()
                == ConversionMode::Batch {
                self.paths() + more@
            } else {
                self.paths()
            },
    {
        let mut added: Vec<P> = more;
        match self {
            PipelineInputs::Single(p) => PipelineInputs::Single(p),
            PipelineInputs::SplitDifficulties(p) => PipelineInputs::SplitDifficulties(p),
            PipelineInputs::Merge(v) => {
                let mut list: Vec<P> = v;
                list.append(&mut added);
                PipelineInputs::Merge(list)
            },
            PipelineInputs::Batch(v) => {
                let mut list: Vec<P> = v;
                list.append(&mut added);
                PipelineInputs::Batch(list)
            },
        }
    }

    /// Takes a file out of the list; for the modes with several inputs and
    /// positions within the list. Otherwise nothing changes.
    pub fn without(self, index: usize) -> (r: Self)
        ensures
            r.spec_mode() == self.spec_mode(),
            r.paths() == if (self.spec_mode() == ConversionMode::Merge || self.spec_mode()
                == ConversionMode::Batch) && index < self.paths().len() {
                self.paths().remove(index as int)
            } else {
                self.paths()
            },
    {
        match self {
            PipelineInputs::Single(p) => PipelineInputs::Single(p),
            PipelineInputs::SplitDifficulties(p) => PipelineInputs::SplitDifficulties(p),
            PipelineInputs::Merge(v) => {
                let mut list: Vec<P> = v;
                if index < list.len() {
                    list.remove(index);
                }
                PipelineInputs::Merge(list)
            },
            PipelineInputs::Batch(v) => {
                let mut list: Vec<P> = v;
                if index < list.len() {
                    list.remove(index);
                }
                PipelineInputs::Batch(list)
            },
        }
    }
}

impl<P> Default for PipelineInputs<P> {
    fn default() -> (r: Self)
        ensures
            r.spec_mode() == ConversionMode::Single,
            r.paths().len() == 0,
    {
        PipelineInputs::Single(None)
    }
}

/// The first item, if there is one.
fn first_of<P>(v: Vec<P>) -> (r: Option<P>)
    ensures
        r == if v@.len() > 0 {
            Some(v@[0])
        } else {
            None
        },
{
    let mut list: Vec<P> = v;
    if list.len() > 0 {
        Some(list.remove(0))
    } else {
        None
    }
}

/// The item, if there is one, as a list.
fn list_of<P>(path: Option<P>) -> (r: Vec<P>)
    ensures
        r@ == as_seq(path),
{
    let mut list: Vec<P> = Vec::new();
    if let Some(p) = path {
        list.push(p);
    }
    assert(list@ =~= as_seq(path));
    list
}

/// Where the output goes until another place is chosen.
#[derive(Clone, Copy, Debug, PartialEq, Eq, Structural)]
pub enum OutputPlace {
    /// Beside the first input, with the extension of a chart.
    BesideInput,
    /// Into the directory of the first input.
    InputDirectory,
}

/// Tells where the output goes until another place is chosen.
pub fn default_output(mode: ConversionMode) -> (r: OutputPlace)
    ensures
        r == if mode == ConversionMode::Batch {
            OutputPlace::InputDirectory
        } else {
            OutputPlace::BesideInput
        },
{
    match mode {
        ConversionMode::Batch => OutputPlace::InputDirectory,
        _ => OutputPlace::BesideInput,
    }
}

/// The bit pattern of 120, the tempo to assume where none is known.
pub const DEFAULT_TEMPO_BITS: u64 = 0x405e_0000_0000_0000;

/// The threshold to start from when splitting is switched on.
pub const DEFAULT_SPLIT: u64 = 1_000_000;

/// The number of items becomes `n`: items are cut off, or `fill` is added.
pub open spec fn resized(s: Seq<Real>, n: nat, fill: Real) -> Seq<Real> {
    Seq::new(
        n,
        |i: int|
            if i < s.len() {
                s[i]
            } else {
                fill
            },
    )
}

fn resize(v: &mut Vec<Real>, n: usize, fill: Real)
    ensures
        final(v)@ == resized(old(v)@, n as nat, fill),
{
    while v.len() > n
        invariant
            v@.len() >= n || v@.len() == old(v)@.len(),
            v@.len() <= old(v)@.len(),
            v@ =~= old(v)@.take(v@.len() as int),
        decreases v@.len(),
    {
        v.pop();
    }
    while v.len() < n
        invariant
            v@.len() <= n,
            forall|i: int| 0 <= i < v@.len() ==> #[trigger] v@[i] == resized(old(v)@, n as nat, fill)[i],
            v@.len() >= old(v)@.len() || v@.len() == n,
        decreases n - v@.len(),
    {
        v.push(fill);
    }
    assert(v@ =~= resized(old(v)@, n as nat, fill));
}

/// The tempo to fill in where none is given: the detected one, else 120.
pub open spec fn fill_tempo(detected: Option<Real>) -> Real {
    match detected {
        Some(bpm) => bpm,
        None => Real { bits: DEFAULT_TEMPO_BITS },
    }
}

/// What is known of the selected inputs, and how a conversion is going.
pub struct Session {
    pub preset: ConversionPreset,
    /// The patterns of the first input.
    pub patterns: Vec<PatternInfo>,
    /// The tempo of the first input.
    pub detected_bpm: Option<Real>,
    /// The tempo-change markers of all inputs of a merge, once they were counted.
    pub merge_scan_total: Option<usize>,
    pub status: String,
    pub converting: bool,
    pub progress_stage: String,
    pub progress_done: usize,
    pub progress_total: usize,
}

/// A message from a running conversion.
pub enum ProgressUpdate {
    Progress(Progress),
    /// The conversion is over, with what is told of it or an error.
    Finished(Result<Stats, String>),
}

impl Session {
    /// The number of tempo changes, as far as it is known: of all inputs of a merge
    /// when they were counted, else of the selected pattern of the first input.
    pub open spec fn known_changes(&self, merging: bool) -> Option<nat> {
        if merging && self.merge_scan_total is Some {
            Some(self.merge_scan_total->0 as nat)
        } else {
            match pattern_with_id(pattern_views(self.patterns@), self.preset.pattern_id) {
                Some(pattern) => Some(pattern.bpm_change_count),
                None => None,
            }
        }
    }

    /// Finds the number of tempo changes, as far as it is known.
    pub fn detected_changes(&self, merging: bool) -> (r: Option<usize>)
        ensures
            match self.known_changes(merging) {
                Some(n) => r matches Some(k) && k == n,
                None => r is None,
            },
    {
        if merging {
            if let Some(total) = self.merge_scan_total {
                return Some(total);
            }
        }
        match find_pattern(&self.patterns, self.preset.pattern_id) {
            Some(pattern) => Some(pattern.bpm_change_count),
            None => None,
        }
    }

    /// The settings with the list of tempos brought to the known number of changes,
    /// none where that is not known.
    pub open spec fn synced_changes(&self, merging: bool) -> Seq<Real> {
        resized(
            self.preset.bpm_changes@,
            match self.known_changes(merging) {
                Some(n) => n,
                None => 0,
            },
            fill_tempo(self.detected_bpm),
        )
    }

    /// Brings the list of tempos to the number of changes.
    pub fn sync_bpm_changes(&mut self, merging: bool)
        ensures
            final(self).preset.bpm_changes@ == old(self).synced_changes(merging),
            *final(self) == (Session { preset: final(self).preset, ..*old(self) }),
            final(self).preset == (ConversionPreset {
                bpm_changes: final(self).preset.bpm_changes,
                ..old(self).preset
            }),
    {
        let count: usize = match self.detected_changes(merging) {
            Some(n) => n,
            None => 0,
        };
        let fill: Real = match self.detected_bpm {
            Some(bpm) => bpm,
            None => Real { bits: DEFAULT_TEMPO_BITS },
        };
        resize(&mut self.preset.bpm_changes, count, fill);
    }

    /// Takes in what a look at the first input gave: its patterns and tempo, or why
    /// it could not be read. The first pattern is selected, and the list of tempos
    /// follows.
    pub fn inspected(&mut self, result: Result<(Vec<PatternInfo>, Option<Real>), String>, merging: bool)
        ensures
            match result {
                Ok((patterns, bpm)) => {
                    &&& final(self).patterns@ == patterns@
                    &&& final(self).detected_bpm == bpm
                    &&& final(self).status@ == Seq::<char>::empty()
                    &&& final(self).merge_scan_total is None
                    &&& final(self).preset.pattern_id == if patterns@.len() > 0 {
                        patterns@[0].id
                    } else {
                        old(self).preset.pattern_id
                    }
                    &&& final(self).preset.bpm_changes@ == resized(
                        old(self).preset.bpm_changes@,
                        changes_of(pattern_views(patterns@), final(self).preset.pattern_id),
                        fill_tempo(bpm),
                    )
                    &&& final(self).preset == (ConversionPreset {
                        pattern_id: final(self).preset.pattern_id,
                        bpm_changes: final(self).preset.bpm_changes,
                        ..old(self).preset
                    })
                },
                Err(error) => {
                    &&& final(self).patterns@.len() == 0
                    &&& final(self).detected_bpm is None
                    &&& final(self).status@ == "Could not inspect FLP: "@ + error@
                    &&& final(self).merge_scan_total == old(self).merge_scan_total
                    &&& final(self).preset == old(self).preset
                },
            },
            final(self).converting == old(self).converting,
            final(self).progress_stage == old(self).progress_stage,
            final(self).progress_done == old(self).progress_done,
            final(self).progress_total == old(self).progress_total,
    {
        match result {
            Ok((patterns, bpm)) => {
                if patterns.len() > 0 {
                    self.preset.pattern_id = patterns[0].id;
                }
                self.patterns = patterns;
                self.detected_bpm = bpm;
                self.status = String::new();
                self.merge_scan_total = None;
                self.sync_bpm_changes(merging);
            },
            Err(error) => {
                self.patterns = Vec::new();
                self.detected_bpm = None;
                let mut status: String = "Could not inspect FLP: ".to_owned();
                put(&mut status, error.as_str());
                self.status = status;
            },
        }
    }

    /// Forgets what was known of the inputs, once none is left.
    pub fn forget_inputs(&mut self)
        ensures
            final(self).patterns@.len() == 0,
            final(self).detected_bpm is None,
            *final(self) == (Session {
                patterns: final(self).patterns,
                detected_bpm: None,
                ..*old(self)
            }),
    {
        self.patterns = Vec::new();
        self.detected_bpm = None;
    }

    /// Takes in the number of tempo-change markers of all inputs of a merge, or why
    /// they could not be counted.
    pub fn scanned(&mut self, result: Result<usize, String>)
        ensures
            match result {
                Ok(total) => {
                    &&& final(self).merge_scan_total == Some(total)
                    &&& final(self).status@ == "Scan complete: "@ + decimal(total as nat)
                        + " BPM change(s) across all inputs."@
                    &&& final(self).preset.bpm_changes@ == resized(
                        old(self).preset.bpm_changes@,
                        total as nat,
                        fill_tempo(old(self).detected_bpm),
                    )
                    &&& final(self).preset == (ConversionPreset {
                        bpm_changes: final(self).preset.bpm_changes,
                        ..old(self).preset
                    })
                },
                Err(error) => {
                    &&& final(self).merge_scan_total == old(self).merge_scan_total
                    &&& final(self).status@ == "Scan failed: "@ + error@
                    &&& final(self).preset == old(self).preset
                },
            },
            *final(self) == (Session {
                merge_scan_total: final(self).merge_scan_total,
                status: final(self).status,
                preset: final(self).preset,
                ..*old(self)
            }),
    {
        match result {
            Ok(total) => {
                self.merge_scan_total = Some(total);
                let mut status: String = "Scan complete: ".to_owned();
                put(&mut status, decimal_text(total as u64).as_str());
                put(&mut status, " BPM change(s) across all inputs.");
                self.status = status;
                self.sync_bpm_changes(true);
            },
            Err(error) => {
                let mut status: String = "Scan failed: ".to_owned();
                put(&mut status, error.as_str());
                self.status = status;
            },
        }
    }

    /// Begins a conversion.
    pub fn begin(&mut self)
        ensures
            final(self).converting,
            final(self).progress_stage@ == "Starting..."@,
            final(self).progress_done == 0,
            final(self).progress_total == 0,
            final(self).status@ == Seq::<char>::empty(),
            *final(self) == (Session {
                converting: true,
                progress_stage: final(self).progress_stage,
                progress_done: 0,
                progress_total: 0,
                status: final(self).status,
                ..*old(self)
            }),
    {
        self.converting = true;
        self.progress_stage = "Starting...".to_owned();
        self.progress_done = 0;
        self.progress_total = 0;
        self.status = String::new();
    }

    /// Takes in a message from a running conversion; true when it is over. The
    /// output and the duration are given as they are shown.
    pub fn apply(&mut self, update: ProgressUpdate, output: Option<&str>, time: &str) -> (r: bool)
        ensures
            match update {
                ProgressUpdate::Progress(Progress::Stage(stage)) => {
                    &&& !r
                    &&& final(self).progress_stage@ == stage@
                    &&& *final(self) == (Session {
                        progress_stage: final(self).progress_stage,
                        progress_done: 0,
                        progress_total: 0,
                        ..*old(self)
                    })
                },
                ProgressUpdate::Progress(Progress::Notes { done, total }) => {
                    &&& !r
                    &&& *final(self) == (Session {
                        progress_done: done,
                        progress_total: total,
                        ..*old(self)
                    })
                },
                ProgressUpdate::Finished(result) => {
                    &&& r
                    &&& *final(self) == (Session {
                        converting: false,
                        status: final(self).status,
                        ..*old(self)
                    })
                    &&& final(self).status@ == match result {
                        Ok(stats) => closing_line(
                            stats.notes@,
                            stats.sections@,
                            match output {
                                Some(text) => text@,
                                None => "(no output selected)"@,
                            },
                            stats.files as nat,
                            time@,
                            stats.warnings@,
                        ),
                        Err(error) => "Conversion failed: "@ + error@,
                    }
                },
            },
    {
        match update {
            ProgressUpdate::Progress(Progress::Stage(stage)) => {
                self.progress_stage = stage.to_owned();
                self.progress_done = 0;
                self.progress_total = 0;
                false
            },
            ProgressUpdate::Progress(Progress::Notes { done, total }) => {
                self.progress_done = done;
                self.progress_total = total;
                false
            },
            ProgressUpdate::Finished(result) => {
                self.converting = false;
                self.status = match result {
                    Ok(stats) => {
                        let place: &str = match output {
                            Some(text) => text,
                            None => "(no output selected)",
                        };
                        summary(&stats, place, time)
                    },
                    Err(error) => {
                        let mut status: String = "Conversion failed: ".to_owned();
                        put(&mut status, error.as_str());
                        status
                    },
                };
                true
            },
        }
    }
}

/// Tells what is missing before a conversion can begin; input before output.
pub fn missing_choice(direction: Direction, has_input: bool, has_output: bool) -> (r: Option<&'static str>)
    ensures
        match r {
            None => has_input && has_output,
            Some(text) => text@ == match (direction, has_input) {
                (Direction::ToChart, false) => "Choose an input FLP first."@,
                (Direction::ToChart, true) => "Choose an output location first."@,
                (Direction::ToScore, false) => "Choose an input chart JSON first."@,
                (Direction::ToScore, true) => "Choose an output FSC location first."@,
            } && !(has_input && has_output),
        },
{
    if !has_input {
        match direction {
            Direction::ToChart => Some("Choose an input FLP first."),
            Direction::ToScore => Some("Choose an input chart JSON first."),
        }
    } else if !has_output {
        match direction {
            Direction::ToChart => Some("Choose an output location first."),
            Direction::ToScore => Some("Choose an output FSC location first."),
        }
    } else {
        None
    }
}

/// The number by which the direction is kept between sessions.
pub open spec fn direction_code(direction: Direction) -> u8 {
    match direction {
        Direction::ToChart => 0,
        Direction::ToScore => 1,
    }
}

/// Gives the number by which the direction is kept between sessions.
pub fn encode_direction(direction: Direction) -> (r: u8)
    ensures
        r == direction_code(direction),
{
    match direction {
        Direction::ToChart => 0,
        Direction::ToScore => 1,
    }
}

/// Reads the direction back; unknown numbers stand for the default.
pub fn decode_direction(code: u8) -> (r: Direction)
    ensures
        r == if code == 1 {
            Direction::ToScore
        } else {
            Direction::ToChart
        },
        forall|d: Direction| code == #[trigger] direction_code(d) ==> r == d,
{
    if code == 1 {
        Direction::ToScore
    } else {
        Direction::ToChart
    }
}

/// Switches the starting tempo of the settings on or off. Switched on, it starts
/// from the detected tempo, else 120.
pub fn toggle_tempo(on: bool, current: Option<Real>, detected: Option<Real>) -> (r: Option<Real>)
    ensures
        r == if !on {
            None
        } else if current is Some {
            current
        } else {
            Some(fill_tempo(detected))
        },
{
    if !on {
        return None;
    }
    match current {
        Some(bpm) => Some(bpm),
        None => match detected {
            Some(bpm) => Some(bpm),
            None => Some(Real { bits: DEFAULT_TEMPO_BITS }),
        },
    }
}

/// Switches the scroll speed of the settings on or off. Switched on, it starts from
/// the automatic speed, else 1.
pub fn toggle_speed(on: bool, current: Option<Real>, automatic: Option<Real>) -> (r: Option<Real>)
    ensures
        r == if !on {
            None
        } else if current is Some {
            current
        } else if automatic is Some {
            automatic
        } else {
            Some(Real { bits: crate::types::ONE_BITS })
        },
{
    if !on {
        return None;
    }
    match current {
        Some(speed) => Some(speed),
        None => match automatic {
            Some(speed) => Some(speed),
            None => Some(Real { bits: crate::types::ONE_BITS }),
        },
    }
}

/// Switches splitting on or off. Switched on, it starts from a million notes.
pub fn toggle_split(on: bool, current: Option<u64>) -> (r: Option<u64>)
    ensures
        r == if !on {
            None
        } else if current is Some {
            current
        } else {
            Some(DEFAULT_SPLIT)
        },
        on && current is None ==> r == Some(1_000_000u64),
{
    if !on {
        return None;
    }
    match current {
        Some(threshold) => Some(threshold),
        None => Some(DEFAULT_SPLIT),
    }
}

/// How the selected pattern is shown.
pub open spec fn selected_pattern_text(patterns: Seq<PatternView>, id: u16) -> Seq<char> {
    match pattern_with_id(patterns, id) {
        Some(pattern) => pattern.name + " ("@ + grouped(pattern.note_count) + " notes)"@,
        None => "Pattern id "@ + decimal(id as nat) + " (not in this FLP)"@,
    }
}

/// Shows the selected pattern.
pub fn selected_pattern_label(patterns: &Vec<PatternInfo>, id: u16) -> (r: String)
    ensures
        r@ == selected_pattern_text(pattern_views(patterns@), id),
{
    match find_pattern(patterns, id) {
        Some(pattern) => pattern.display_name(),
        None => {
            let mut out: String = "Pattern id ".to_owned();
            put(&mut out, decimal_text(id as u64).as_str());
            put(&mut out, " (not in this FLP)");
            out
        },
    }
}

/// How the number of tempo changes is shown. For a merge whose inputs were not all
/// counted, a note says so.
pub open spec fn changes_text(count: Option<nat>, first_only: bool) -> Seq<char> {
    match count {
        None => "Choose an FLP to detect BPM changes."@,
        Some(n) => if n == 0 {
            "No BPM changes detected in this pattern."@
        } else {
            decimal(n) + " BPM change"@ + plural(n) + " detected."@ + if first_only {
                " (first file only -- press Scan all inputs for full count)"@
            } else {
                seq![]
            }
        },
    }
}

/// Shows the number of tempo changes.
pub fn changes_label(count: Option<usize>, first_only: bool) -> (r: String)
    ensures
        r@ == changes_text(
            match count {
                Some(n) => Some(n as nat),
                None => None,
            },
            first_only,
        ),
{
    match count {
        None => "Choose an FLP to detect BPM changes.".to_owned(),
        Some(n) => {
            if n == 0 {
                return "No BPM changes detected in this pattern.".to_owned();
            }
            let mut out: String = decimal_text(n as u64);
            put(&mut out, " BPM change");
            put(&mut out, plural_text(n));
            put(&mut out, " detected.");
            if first_only {
                put(&mut out, " (first file only -- press Scan all inputs for full count)");
            }
            assert(out@ =~= changes_text(Some(n as nat), first_only));
            out
        },
    }
}

/// Shows one of several inputs by its position and path.
pub fn input_label(index: usize, path: &str) -> (r: String)
    requires
        index < usize::MAX,
    ensures
        r@ == "["@ + if index == 0 {
            "1 - primary"@
        } else {
            decimal((index + 1) as nat)
        } + "] "@ + path@,
{
    let mut out: String = "[".to_owned();
    if index == 0 {
        put(&mut out, "1 - primary");
    } else {
        put(&mut out, decimal_text(index as u64 + 1).as_str());
    }
    put(&mut out, "] ");
    put(&mut out, path);
    out
}

/// Shows how many of all notes or sections are done.
pub fn progress_label(done: usize, total: usize, direction: Direction) -> (r: String)
    ensures
        r@ == decimal(done as nat) + " / "@ + decimal(total as nat) + match direction {
            Direction::ToChart => " notes"@,
            Direction::ToScore => " sections"@,
        },
{
    let mut out: String = decimal_text(done as u64);
    put(&mut out, " / ");
    put(&mut out, decimal_text(total as u64).as_str());
    match direction {
        Direction::ToChart => put(&mut out, " notes"),
        Direction::ToScore => put(&mut out, " sections"),
    }
    out
}

/// The inputs of a mode are all that was chosen for it, in order.
pub proof fn inputs_are_all_that_was_chosen<P>(path: P, list: Vec<P>)
    ensures
        PipelineInputs::Single(Some(path)).paths() == seq![path],
        PipelineInputs::SplitDifficulties(Some(path)).paths() == seq![path],
        PipelineInputs::Single(None::<P>).paths().len() == 0,
        PipelineInputs::SplitDifficulties(None::<P>).paths().len() == 0,
        PipelineInputs::Merge(list).paths() == list@,
        PipelineInputs::Batch(list).paths() == list@,
        PipelineInputs::Single(Some(path)).spec_mode() == ConversionMode::Single,
        PipelineInputs::SplitDifficulties(Some(path)).spec_mode()
            == ConversionMode::SplitDifficulties,
        PipelineInputs::Single(None::<P>).spec_mode() == ConversionMode::Single,
        PipelineInputs::SplitDifficulties(None::<P>).spec_mode()
            == ConversionMode::SplitDifficulties,
        PipelineInputs::Merge(list).spec_mode() == ConversionMode::Merge,
        PipelineInputs::Batch(list).spec_mode() == ConversionMode::Batch,
{
}

/// Bringing the list of tempos to a length keeps those that it has, as far as they fit;
/// new ones are all the same.
pub proof fn resizing_keeps_tempos(s: Seq<Real>, n: nat, fill: Real)
    ensures
        resized(s, n, fill).len() == n,
        n <= s.len() ==> resized(s, n, fill) == s.take(n as int),
        n >= s.len() ==> resized(s, n, fill).take(s.len() as int) == s,
        forall|i: int| s.len() <= i < n ==> #[trigger] resized(s, n, fill)[i] == fill,
{
    if n <= s.len() {
        assert(resized(s, n, fill) =~= s.take(n as int));
    }
    if n >= s.len() {
        assert(resized(s, n, fill).take(s.len() as int) =~= s);
    }
}

/// A new tempo is that of the project, else 120.
pub proof fn new_tempos_are_those_of_the_project(detected: Option<Real>)
    ensures
        detected matches Some(bpm) ==> fill_tempo(detected) == bpm,
        detected is None ==> fill_tempo(detected).bits == 0x405e_0000_0000_0000,
{
}

/// There is one tempo for every marker that is known: for a merge those of the last scan,
/// and otherwise, or without a scan, those of the selected pattern. Nothing is known
/// without a pattern.
pub proof fn one_tempo_for_every_marker(session: Session, merging: bool, k: int)
    ensures
        (merging && session.merge_scan_total is Some) ==> session.known_changes(merging) == Some(
            session.merge_scan_total->0 as nat,
        ) && session.synced_changes(merging).len() == session.merge_scan_total->0,
        (!(merging && session.merge_scan_total is Some) && 0 <= k < session.patterns@.len()
            && session.patterns@[k].id == session.preset.pattern_id && forall|m: int|
            0 <= m < k ==> (#[trigger] session.patterns@[m]).id != session.preset.pattern_id)
            ==> session.known_changes(merging) == Some(
            session.patterns@[k].bpm_change_count as nat,
        ) && session.synced_changes(merging).len() == session.patterns@[k].bpm_change_count,
        (!(merging && session.merge_scan_total is Some) && forall|m: int|
            0 <= m < session.patterns@.len() ==> (#[trigger] session.patterns@[m]).id
                != session.preset.pattern_id) ==> session.known_changes(merging) is None
            && session.synced_changes(merging).len() == 0,
        forall|i: int|
            0 <= i < session.synced_changes(merging).len() && i < session.preset.bpm_changes@.len()
                ==> #[trigger] session.synced_changes(merging)[i] == session.preset.bpm_changes@[i],
{
    let views = pattern_views(session.patterns@);
    let id = session.preset.pattern_id;
    if !(merging && session.merge_scan_total is Some) {
        if 0 <= k < session.patterns@.len() && session.patterns@[k].id == id && forall|m: int|
            0 <= m < k ==> (#[trigger] session.patterns@[m]).id != id {
            assert forall|m: int| 0 <= m < k implies (#[trigger] views[m]).id != id by {
                assert(views[m] == session.patterns@[m]@);
            }
            first_pattern_with_id_is_found(views, id, k);
        }
        if forall|m: int|
            0 <= m < session.patterns@.len() ==> (#[trigger] session.patterns@[m]).id != id {
            assert forall|m: int| 0 <= m < views.len() implies (#[trigger] views[m]).id != id by {
                assert(views[m] == session.patterns@[m]@);
            }
            unknown_id_is_not_found(views, id);
        }
    }
}

/// One input is shown as it is, several by their number and the first.
pub proof fn inputs_are_shown(count: nat, first: Seq<char>)
    ensures
        count > 0 ==> inputs_text(ConversionMode::Single, count, first) == first,
        count > 0 ==> inputs_text(ConversionMode::SplitDifficulties, count, first) == first,
        inputs_text(ConversionMode::Single, 0, first) == "No input selected"@,
        inputs_text(ConversionMode::SplitDifficulties, 0, first) == "No input selected"@,
        inputs_text(ConversionMode::Merge, 0, first) == "No inputs selected"@,
        inputs_text(ConversionMode::Batch, 0, first) == "No inputs selected"@,
        count > 0 ==> inputs_text(ConversionMode::Merge, count, first) == decimal(count)
            + " FLPs (first: "@ + first + ")"@,
        count > 0 ==> inputs_text(ConversionMode::Batch, count, first) == decimal(count)
            + " FLPs (first: "@ + first + ")"@,
{
}

/// The selected pattern is shown with its name and its number of notes, or as missing.
pub proof fn selected_pattern_is_shown(patterns: Seq<PatternView>, id: u16, k: int)
    ensures
        (0 <= k < patterns.len() && patterns[k].id == id && forall|m: int|
            0 <= m < k ==> (#[trigger] patterns[m]).id != id) ==> selected_pattern_text(patterns, id)
            == patterns[k].name + " ("@ + grouped(patterns[k].note_count) + " notes)"@,
        (forall|m: int| 0 <= m < patterns.len() ==> (#[trigger] patterns[m]).id != id)
            ==> selected_pattern_text(patterns, id) == "Pattern id "@ + decimal(id as nat)
            + " (not in this FLP)"@,
{
    if 0 <= k < patterns.len() && patterns[k].id == id && forall|m: int|
        0 <= m < k ==> (#[trigger] patterns[m]).id != id {
        first_pattern_with_id_is_found(patterns, id, k);
    }
    if forall|m: int| 0 <= m < patterns.len() ==> (#[trigger] patterns[m]).id != id {
        unknown_id_is_not_found(patterns, id);
    }
}

/// The number of tempo changes is shown, with a note where only the first file was
/// counted.
pub proof fn tempo_changes_are_shown(n: nat, first_only: bool)
    ensures
        changes_text(None, first_only) == "Choose an FLP to detect BPM changes."@,
        changes_text(Some(0), first_only) == "No BPM changes detected in this pattern."@,
        n > 1 ==> changes_text(Some(n), false) == decimal(n) + " BPM change"@ + "s"@ + " detected."@
            + seq![],
        n > 1 ==> changes_text(Some(n), true) == decimal(n) + " BPM change"@ + "s"@ + " detected."@
            + " (first file only -- press Scan all inputs for full count)"@,
        changes_text(Some(1), first_only) == decimal(1) + " BPM change"@ + ""@ + " detected."@
            + if first_only {
            " (first file only -- press Scan all inputs for full count)"@
        } else {
            seq![]
        },
{
}

/// The two directions have different codes.
pub proof fn directions_have_their_codes()
    ensures
        direction_code(Direction::ToChart) == 0,
        direction_code(Direction::ToScore) == 1,
{
}

} // verus!
