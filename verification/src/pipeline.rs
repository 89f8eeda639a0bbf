//! From the bytes of the inputs to the sections of a chart, for each mode.

use crate::bytes::FlpError;
use crate::chart::{
    change_error, changes_among, must_hit_at, resolve_must_hit_sections, resolve_section_timing,
    section_views, tempo_at, tempos_go_in_order, timing_error, BaseTempo, ChartNote, Section,
    SectionView, TimingError,
};
use crate::flp::{is_fsc, is_score, FlNote};
use crate::grouping::{
    every_lane_note_is_charted, group_notes, grouped_section, grouped_sections,
    grouping_keeps_all_notes, lane_notes, mapped_pitches_have_lanes, note_bag, note_sum,
    notes_make_a_section, section_total, sections_depend_on_roles, written_total,
};
use crate::inspect::{
    difficulty_slots, find_difficulty_patterns, find_pattern, first_match_is_first,
    first_pattern_with_id_is_found, input_info, inspect, is_first_match, pattern_with_id,
    unknown_id_is_not_found,
};
use crate::number::Real;
use crate::project::{
    fallback_name, flp_info, flp_project, flp_reports, fsc_project, fsc_reports, input_project,
    input_reports, listed_count_is_number_of_notes, listed_patterns_are_distinct,
    listing_reads_what_inspection_lists, parse_flp, parse_fsc, parse_input,
    parsing_agrees_with_inspection,
};
use crate::text::{decimal, decimal_text, put, same_text, string_view, text_view, texts};
use crate::types::{
    item_reports, pattern_views, ConversionPreset, DifficultySlots, PatternInfo, PatternView, Progress,
    Side,
};
use vstd::prelude::*;

verus! {

/// Why a conversion fails.
#[derive(Clone, Copy, Debug, PartialEq, Eq, Structural)]
pub enum ConvertError {
    /// The tempo multiplier is not a finite positive number.
    InvalidMultiplier,
    /// An input cannot be read.
    Flp(FlpError),
    /// The selected pattern has no notes.
    NoNotes,
    /// None of the merged inputs has notes.
    NoMergedNotes,
    /// Neither the input nor the settings have a tempo.
    NoTempo,
    /// Neither the first of the merged inputs nor the settings have a tempo.
    NoMergedTempo,
    /// Neither the project nor the settings have a tempo.
    NoProjectTempo,
    /// The input has no ticks per quarter note.
    ZeroPpq,
    /// No pattern with notes is named after a difficulty.
    NoDifficulty,
    /// The tempo changes cannot be resolved.
    Timing(TimingError),
}

/// What the settings have to meet before any input is read.
pub fn check_preset(preset: &ConversionPreset) -> (r: Result<(), ConvertError>)
    ensures
        r == if preset.bpm_multiplier.spec_is_valid_bpm() {
            Ok::<(), ConvertError>(())
        } else {
            Err(ConvertError::InvalidMultiplier)
        },
{
    if preset.bpm_multiplier.is_valid_bpm() {
        Ok(())
    } else {
        Err(ConvertError::InvalidMultiplier)
    }
}

/// The notes to make a chart of.
#[derive(Clone, Debug, PartialEq, Eq)]
pub struct ChartInput {
    pub notes: Vec<FlNote>,
    /// Ticks per quarter note; not zero.
    pub ppq: u16,
    /// The tempo to start with.
    pub base: BaseTempo,
}

/// Notes to make a chart of, as mathematical values.
#[verifier::ext_equal]
pub struct ChartInputView {
    pub notes: Seq<FlNote>,
    pub ppq: u16,
    pub base: BaseTempo,
}

impl View for ChartInput {
    type V = ChartInputView;

    open spec fn view(&self) -> ChartInputView {
        ChartInputView { notes: self.notes@, ppq: self.ppq, base: self.base }
    }
}

/// The tempo to start with: that of the settings, else that of the input.
pub open spec fn start_tempo(tempo: Option<u32>, override_tempo: Option<Real>) -> Option<BaseTempo> {
    match (override_tempo, tempo) {
        (Some(given), _) => Some(BaseTempo::Given(given)),
        (None, Some(milli)) => Some(BaseTempo::Milli(milli)),
        (None, None) => None,
    }
}

/// Finds the tempo to start with.
pub fn choose_tempo(tempo: Option<u32>, override_tempo: Option<Real>) -> (r: Option<BaseTempo>)
    ensures
        r == start_tempo(tempo, override_tempo),
{
    match override_tempo {
        Some(given) => Some(BaseTempo::Given(given)),
        None => match tempo {
            Some(milli) => Some(BaseTempo::Milli(milli)),
            None => None,
        },
    }
}

/// The chart input that notes, tempo and ticks make: there have to be notes, a
/// tempo and ticks, asked for in this order.
pub open spec fn chart_input(
    notes: Seq<FlNote>,
    ppq: u16,
    tempo: Option<u32>,
    override_tempo: Option<Real>,
    no_notes: ConvertError,
    no_tempo: ConvertError,
) -> Result<ChartInputView, ConvertError> {
    if notes.len() == 0 {
        Err(no_notes)
    } else {
        match start_tempo(tempo, override_tempo) {
            None => Err(no_tempo),
            Some(base) => if ppq == 0 {
                Err(ConvertError::ZeroPpq)
            } else {
                Ok(ChartInputView { notes, ppq, base })
            },
        }
    }
}

/// A result says the same as its mathematical counterpart.
pub open spec fn same_input(
    r: Result<ChartInput, ConvertError>,
    v: Result<ChartInputView, ConvertError>,
) -> bool {
    match v {
        Err(e) => r matches Err(f) && f == e,
        Ok(input) => r matches Ok(i) && i@ == input,
    }
}

fn make_input(
    notes: Vec<FlNote>,
    ppq: u16,
    tempo: Option<u32>,
    override_tempo: Option<Real>,
    no_notes: ConvertError,
    no_tempo: ConvertError,
) -> (r: Result<ChartInput, ConvertError>)
    ensures
        same_input(r, chart_input(notes@, ppq, tempo, override_tempo, no_notes, no_tempo)),
{
    if notes.len() == 0 {
        return Err(no_notes);
    }
    match choose_tempo(tempo, override_tempo) {
        None => Err(no_tempo),
        Some(base) => {
            if ppq == 0 {
                Err(ConvertError::ZeroPpq)
            } else {
                Ok(ChartInput { notes, ppq, base })
            }
        },
    }
}

/// What a pattern of an input is converted from.
pub open spec fn pattern_chart_input(bytes: Seq<u8>, id: u16, override_tempo: Option<Real>) -> Result<
    ChartInputView,
    ConvertError,
> {
    match input_project(bytes, id) {
        Err(e) => Err(ConvertError::Flp(e)),
        Ok(project) => chart_input(
            project.notes,
            project.ppq,
            project.tempo,
            override_tempo,
            ConvertError::NoNotes,
            ConvertError::NoTempo,
        ),
    }
}

/// What one input is converted from: the notes of its selected pattern.
pub open spec fn single_chart_input(bytes: Seq<u8>, preset: ConversionPreset) -> Result<
    ChartInputView,
    ConvertError,
> {
    pattern_chart_input(bytes, preset.pattern_id, preset.base_bpm_override)
}

/// Reads the one input of a single conversion. Progress reports go to `log`.
pub fn single_input(bytes: &[u8], preset: &ConversionPreset, log: &mut Vec<Progress>) -> (r: Result<
    ChartInput,
    ConvertError,
>)
    ensures
        same_input(r, single_chart_input(bytes@, *preset)),
        final(log)@ == old(log)@.push(Progress::Stage("Parsing notes")) + input_reports(
            bytes@,
            preset.pattern_id,
        ),
{
    log.push(Progress::Stage("Parsing notes"));
    match parse_input(bytes, preset.pattern_id, log) {
        Err(e) => Err(ConvertError::Flp(e)),
        Ok(project) => make_input(
            project.notes,
            project.ppq,
            project.tempo,
            preset.base_bpm_override,
            ConvertError::NoNotes,
            ConvertError::NoTempo,
        ),
    }
}

/// What was gathered from the inputs of a merge so far.
#[derive(Clone, Debug, PartialEq, Eq)]
pub struct Merge {
    pub notes: Vec<FlNote>,
    /// Ticks per quarter note of the first input.
    pub ppq: u16,
    /// Tempo of the first input.
    pub tempo: Option<u32>,
    /// Name of the pattern to merge; known from the first input on.
    pub target: Option<String>,
    /// Inputs without a pattern of that name.
    pub skipped: Vec<String>,
}

/// A merge as mathematical values.
#[verifier::ext_equal]
pub struct MergeView {
    pub notes: Seq<FlNote>,
    pub ppq: u16,
    pub tempo: Option<u32>,
    pub target: Option<Seq<char>>,
    pub skipped: Seq<Seq<char>>,
}

impl View for Merge {
    type V = MergeView;

    open spec fn view(&self) -> MergeView {
        MergeView {
            notes: self.notes@,
            ppq: self.ppq,
            tempo: self.tempo,
            target: string_view(self.target),
            skipped: texts(self.skipped@),
        }
    }
}

/// A merge before the first input.
pub open spec fn empty_merge() -> MergeView {
    MergeView { notes: seq![], ppq: 0, tempo: None, target: None, skipped: seq![] }
}

/// The name of the pattern to merge, by the first input: that of the selected
/// pattern, else that of the first pattern, else the default name.
pub open spec fn target_name(patterns: Seq<PatternView>, id: u16) -> Seq<char> {
    match pattern_with_id(patterns, id) {
        Some(pattern) => pattern.name,
        None => if patterns.len() > 0 {
            patterns[0].name
        } else {
            fallback_name(id)
        },
    }
}

/// Finds the name of the pattern to merge.
pub fn find_target_name(patterns: &Vec<PatternInfo>, id: u16) -> (r: String)
    ensures
        r@ == target_name(pattern_views(patterns@), id),
{
    match find_pattern(patterns, id) {
        Some(pattern) => pattern.name.clone(),
        None => {
            if patterns.len() > 0 {
                assert(pattern_views(patterns@)[0] == patterns@[0]@);
                patterns[0].name.clone()
            } else {
                let mut name: String = "Pattern ".to_owned();
                put(&mut name, decimal_text(id as u64).as_str());
                name
            }
        },
    }
}

/// The identifier of the first pattern with exactly this name.
pub open spec fn id_by_name(patterns: Seq<PatternView>, name: Seq<char>) -> Option<u16>
    decreases patterns.len(),
{
    if patterns.len() == 0 {
        None
    } else if patterns[0].name == name {
        Some(patterns[0].id)
    } else {
        id_by_name(patterns.skip(1), name)
    }
}

/// Finds the first pattern with exactly this name.
pub fn find_id_by_name(patterns: &Vec<PatternInfo>, name: &str) -> (r: Option<u16>)
    ensures
        r == id_by_name(pattern_views(patterns@), name@),
{
    let ghost views = pattern_views(patterns@);
    assert(views.skip(0) =~= views);
    for i in 0..patterns.len()
        invariant
            views == pattern_views(patterns@),
            id_by_name(views, name@) == id_by_name(views.skip(i as int), name@),
    {
        assert(views.skip(i as int)[0] == patterns@[i as int]@);
        if same_text(patterns[i].name.as_str(), name) {
            return Some(patterns[i].id);
        }
        assert(views.skip(i as int).skip(1) =~= views.skip(i + 1));
    }
    None
}

/// The pattern of an input of a batch. The first input decides by the identifier;
/// from it on the name of its pattern is known, and every project with a pattern of
/// that name is converted from that one. Other projects go by the identifier too; in a
/// score there is nothing to choose.
pub open spec fn batch_pattern(bytes: Seq<u8>, name: Option<Seq<char>>, id: u16) -> u16 {
    if is_score(bytes) {
        id
    } else {
        match (name, flp_project(bytes, None)) {
            (Some(text), Ok(listing)) => match id_by_name(listing.patterns, text) {
                Some(found) => found,
                None => id,
            },
            _ => id,
        }
    }
}

/// What one of the inputs of a batch is converted from.
pub open spec fn batch_chart_input(
    bytes: Seq<u8>,
    name: Option<Seq<char>>,
    preset: ConversionPreset,
) -> Result<ChartInputView, ConvertError> {
    pattern_chart_input(
        bytes,
        batch_pattern(bytes, name, preset.pattern_id),
        preset.base_bpm_override,
    )
}

/// The name of the pattern to convert, as it is known after one more input of a
/// batch.
pub open spec fn batch_name(bytes: Seq<u8>, name: Option<Seq<char>>, id: u16) -> Option<Seq<char>> {
    match name {
        Some(text) => Some(text),
        None => match input_project(bytes, id) {
            Ok(project) => Some(target_name(project.patterns, id)),
            Err(_) => None,
        },
    }
}

/// Finds the pattern of an input of a batch.
fn find_batch_pattern(bytes: &[u8], name: &Option<String>, id: u16) -> (r: u16)
    ensures
        r == batch_pattern(bytes@, string_view(*name), id),
{
    if is_fsc(bytes) {
        return id;
    }
    match name {
        None => id,
        Some(text) => {
            let mut unseen: Vec<Progress> = Vec::new();
            match parse_flp(bytes, None, &mut unseen) {
                Err(_) => id,
                Ok(listing) => match find_id_by_name(&listing.patterns, text.as_str()) {
                    Some(found) => found,
                    None => id,
                },
            }
        },
    }
}

/// Reads one of the inputs of a batch. An input without notes is skipped (`None`)
/// and does not fail. `name` is the name of the pattern to convert; the first input
/// sets it. Progress reports go to `log`.
pub fn batch_input(
    bytes: &[u8],
    name: &mut Option<String>,
    preset: &ConversionPreset,
    log: &mut Vec<Progress>,
) -> (r: Result<Option<ChartInput>, ConvertError>)
    ensures
        match batch_chart_input(bytes@, string_view(*old(name)), *preset) {
            Err(ConvertError::NoNotes) => r matches Ok(None),
            Err(e) => r matches Err(f) && f == e,
            Ok(input) => r matches Ok(Some(i)) && i@ == input,
        },
        string_view(*final(name)) == batch_name(bytes@, string_view(*old(name)), preset.pattern_id),
        final(log)@ == old(log)@.push(Progress::Stage("Parsing notes")) + input_reports(
            bytes@,
            batch_pattern(bytes@, string_view(*old(name)), preset.pattern_id),
        ),
{
    log.push(Progress::Stage("Parsing notes"));
    let id: u16 = find_batch_pattern(bytes, name, preset.pattern_id);
    match parse_input(bytes, id, log) {
        Err(e) => Err(ConvertError::Flp(e)),
        Ok(project) => {
            if name.is_none() {
                *name = Some(find_target_name(&project.patterns, id));
            }
            match make_input(
                project.notes,
                project.ppq,
                project.tempo,
                preset.base_bpm_override,
                ConvertError::NoNotes,
                ConvertError::NoTempo,
            ) {
                Err(ConvertError::NoNotes) => Ok(None),
                Err(e) => Err(e),
                Ok(input) => Ok(Some(input)),
            }
        },
    }
}

/// What an input after the first adds to a merge: all notes of a score, or the
/// notes of the pattern of a project that has the right name. `None` where a
/// project has no such pattern.
pub open spec fn added_notes(bytes: Seq<u8>, name: Seq<char>) -> Result<Option<Seq<FlNote>>, FlpError> {
    if is_score(bytes) {
        match fsc_project(bytes) {
            Err(e) => Err(e),
            Ok(project) => Ok(Some(project.notes)),
        }
    } else {
        match flp_project(bytes, None) {
            Err(e) => Err(e),
            Ok(listing) => match id_by_name(listing.patterns, name) {
                None => Ok(None),
                Some(id) => match flp_project(bytes, Some(id)) {
                    Err(e) => Err(e),
                    Ok(project) => Ok(Some(project.notes)),
                },
            },
        }
    }
}

/// The progress reports that reading an input after the first gives.
pub open spec fn added_reports(bytes: Seq<u8>, name: Seq<char>) -> Seq<Progress> {
    if is_score(bytes) {
        fsc_reports(bytes)
    } else {
        match flp_project(bytes, None) {
            Err(_) => seq![],
            Ok(listing) => match id_by_name(listing.patterns, name) {
                None => seq![],
                Some(id) => flp_reports(bytes, Some(id)),
            },
        }
    }
}

/// How an input is called in the list of skipped ones.
pub open spec fn listed_name(file_name: Option<Seq<char>>) -> Seq<char> {
    match file_name {
        Some(name) => name,
        None => "(unknown)"@,
    }
}

/// A merge after one more input. The first input gives ticks, tempo and the name
/// of the pattern; every later one adds its notes or is listed as skipped.
pub open spec fn merged(state: MergeView, bytes: Seq<u8>, file_name: Option<Seq<char>>, id: u16) -> Result<
    MergeView,
    FlpError,
> {
    match state.target {
        None => match input_project(bytes, id) {
            Err(e) => Err(e),
            Ok(project) => Ok(
                MergeView {
                    notes: state.notes + project.notes,
                    ppq: project.ppq,
                    tempo: project.tempo,
                    target: Some(target_name(project.patterns, id)),
                    ..state
                },
            ),
        },
        Some(name) => match added_notes(bytes, name) {
            Err(e) => Err(e),
            Ok(Some(notes)) => Ok(MergeView { notes: state.notes + notes, ..state }),
            Ok(None) => Ok(MergeView { skipped: state.skipped.push(listed_name(file_name)), ..state }),
        },
    }
}

/// The progress reports on one more input of a merge.
pub open spec fn merge_reports(state: MergeView, bytes: Seq<u8>, id: u16) -> Seq<Progress> {
    match state.target {
        None => input_reports(bytes, id),
        Some(name) => added_reports(bytes, name),
    }
}

/// Appends notes.
fn append_notes(out: &mut Vec<FlNote>, notes: &Vec<FlNote>)
    ensures
        final(out)@ == old(out)@ + notes@,
{
    out.reserve(notes.len());
    assert(out@ =~= old(out)@ + notes@.take(0));
    for i in 0..notes.len()
        invariant
            out@ == old(out)@ + notes@.take(i as int),
    {
        out.push(notes[i]);
        assert(out@ =~= old(out)@ + notes@.take(i + 1));
    }
    assert(notes@.take(notes@.len() as int) =~= notes@);
}

impl Merge {
    /// A merge before the first input.
    pub fn new() -> (r: Merge)
        ensures
            r@ == empty_merge(),
    {
        let r: Merge = Merge {
            notes: Vec::new(),
            ppq: 0,
            tempo: None,
            target: None,
            skipped: Vec::new(),
        };
        assert(texts(r.skipped@) =~= seq![]);
        r
    }

    /// Takes in one more input. When it cannot be read, nothing is added.
    /// Progress reports go to `log`.
    pub fn add(
        &mut self,
        bytes: &[u8],
        file_name: Option<&str>,
        preset: &ConversionPreset,
        log: &mut Vec<Progress>,
    ) -> (r: Result<(), ConvertError>)
        ensures
            match merged(old(self)@, bytes@, text_view(file_name), preset.pattern_id) {
                Err(e) => r == Err::<(), ConvertError>(ConvertError::Flp(e)) && final(self)@ == old(
                    self,
                )@,
                Ok(state) => r == Ok::<(), ConvertError>(()) && final(self)@ == state,
            },
            final(log)@ == old(log)@.push(Progress::Stage("Parsing notes")) + merge_reports(
                old(self)@,
                bytes@,
                preset.pattern_id,
            ),
    {
        log.push(Progress::Stage("Parsing notes"));
        let ghost begun = log@;
        let target: String = match &self.target {
            None => {
                match parse_input(bytes, preset.pattern_id, log) {
                    Err(e) => {
                        return Err(ConvertError::Flp(e));
                    },
                    Ok(project) => {
                        self.target = Some(find_target_name(&project.patterns, preset.pattern_id));
                        self.ppq = project.ppq;
                        self.tempo = project.tempo;
                        append_notes(&mut self.notes, &project.notes);
                        return Ok(());
                    },
                }
            },
            Some(name) => name.clone(),
        };
        if is_fsc(bytes) {
            match parse_fsc(bytes, log) {
                Err(e) => Err(ConvertError::Flp(e)),
                Ok(project) => {
                    append_notes(&mut self.notes, &project.notes);
                    Ok(())
                },
            }
        } else {
            let mut unseen: Vec<Progress> = Vec::new();
            match parse_flp(bytes, None, &mut unseen) {
                Err(e) => {
                    assert(log@ =~= begun + seq![]);
                    Err(ConvertError::Flp(e))
                },
                Ok(listing) => match find_id_by_name(&listing.patterns, target.as_str()) {
                    None => {
                        let name: String = match file_name {
                            Some(n) => n.to_owned(),
                            None => "(unknown)".to_owned(),
                        };
                        self.skipped.push(name);
                        proof {
                            assert(log@ =~= begun + seq![]);
                            assert(self@.skipped =~= old(self)@.skipped.push(
                                listed_name(text_view(file_name)),
                            ));
                        }
                        Ok(())
                    },
                    Some(id) => match parse_flp(bytes, Some(id), log) {
                        Err(e) => Err(ConvertError::Flp(e)),
                        Ok(project) => {
                            append_notes(&mut self.notes, &project.notes);
                            Ok(())
                        },
                    },
                },
            }
        }
    }

    /// Gives what is converted once all inputs were taken in.
    pub fn finish(self, preset: &ConversionPreset) -> (r: Result<ChartInput, ConvertError>)
        ensures
            same_input(
                r,
                chart_input(
                    self@.notes,
                    self@.ppq,
                    self@.tempo,
                    preset.base_bpm_override,
                    ConvertError::NoMergedNotes,
                    ConvertError::NoMergedTempo,
                ),
            ),
    {
        make_input(
            self.notes,
            self.ppq,
            self.tempo,
            preset.base_bpm_override,
            ConvertError::NoMergedNotes,
            ConvertError::NoMergedTempo,
        )
    }
}

/// A merge after the first `n` inputs, given by their bytes and file names.
pub open spec fn merged_inputs(inputs: Seq<(Seq<u8>, Option<Seq<char>>)>, id: u16, n: nat) -> Result<
    MergeView,
    FlpError,
>
    decreases n,
{
    if n == 0 {
        Ok(empty_merge())
    } else {
        match merged_inputs(inputs, id, (n - 1) as nat) {
            Err(e) => Err(e),
            Ok(state) => merged(state, inputs[n - 1].0, inputs[n - 1].1, id),
        }
    }
}

/// What the inputs after the first, up to input `n`, add: their notes one after
/// the other.
pub open spec fn later_notes(inputs: Seq<(Seq<u8>, Option<Seq<char>>)>, name: Seq<char>, n: nat) -> Seq<
    FlNote,
>
    decreases n,
{
    if n <= 1 {
        seq![]
    } else {
        later_notes(inputs, name, (n - 1) as nat) + match added_notes(inputs[n - 1].0, name) {
            Ok(Some(notes)) => notes,
            _ => seq![],
        }
    }
}

/// Merging puts the notes of the inputs one after the other: those of the
/// selected pattern of the first input, then those of the pattern of the same
/// name of each other input. Ticks and tempo are those of the first input.
pub proof fn merging_concatenates(inputs: Seq<(Seq<u8>, Option<Seq<char>>)>, id: u16, n: nat)
    requires
        0 < n <= inputs.len(),
        merged_inputs(inputs, id, n) is Ok,
    ensures
        input_project(inputs[0].0, id) is Ok,
        ({
            let first = input_project(inputs[0].0, id)->Ok_0;
            let name = target_name(first.patterns, id);
            let state = merged_inputs(inputs, id, n)->Ok_0;
            &&& state.ppq == first.ppq
            &&& state.tempo == first.tempo
            &&& state.target == Some(name)
            &&& state.notes == first.notes + later_notes(inputs, name, n)
        }),
    decreases n,
{
    reveal_with_fuel(merged_inputs, 2);
    let first = input_project(inputs[0].0, id)->Ok_0;
    let name = target_name(first.patterns, id);
    let state = merged_inputs(inputs, id, n)->Ok_0;
    if n == 1 {
        assert(state.notes =~= first.notes + later_notes(inputs, name, n));
    } else {
        merging_concatenates(inputs, id, (n - 1) as nat);
        assert(state.notes =~= first.notes + later_notes(inputs, name, n));
    }
}

/// One chart of a project with difficulties.
#[derive(Clone, Copy, Debug, PartialEq, Eq)]
pub struct SplitJob {
    pub pattern_id: u16,
    /// What the file names carry for the difficulty.
    pub suffix: &'static str,
}

/// The job for a slot, if the slot is filled.
pub open spec fn slot_job(slot: Option<u16>, suffix: &'static str) -> Seq<SplitJob> {
    match slot {
        Some(pattern_id) => seq![SplitJob { pattern_id, suffix }],
        None => seq![],
    }
}

/// The jobs for all filled slots: easy, normal, hard.
pub open spec fn split_jobs(slots: DifficultySlots) -> Seq<SplitJob> {
    slot_job(slots.easy, "-easy") + slot_job(slots.normal, "") + slot_job(slots.hard, "-hard")
}

/// Lists the jobs for all filled slots.
pub fn jobs_of(slots: &DifficultySlots) -> (r: Vec<SplitJob>)
    ensures
        r@ == split_jobs(*slots),
{
    let mut jobs: Vec<SplitJob> = Vec::new();
    if let Some(pattern_id) = slots.easy {
        jobs.push(SplitJob { pattern_id, suffix: "-easy" });
    }
    if let Some(pattern_id) = slots.normal {
        jobs.push(SplitJob { pattern_id, suffix: "" });
    }
    if let Some(pattern_id) = slots.hard {
        jobs.push(SplitJob { pattern_id, suffix: "-hard" });
    }
    assert(jobs@ =~= split_jobs(*slots));
    jobs
}

/// Finds the difficulties of a project: one job for each, at least one.
pub fn split_plan(bytes: &[u8]) -> (r: Result<Vec<SplitJob>, ConvertError>)
    ensures
        match input_info(bytes@) {
            Err(e) => r == Err::<Vec<SplitJob>, ConvertError>(ConvertError::Flp(e)),
            Ok((_, patterns)) => {
                let jobs = split_jobs(difficulty_slots(patterns, patterns.len()));
                if jobs.len() == 0 {
                    r == Err::<Vec<SplitJob>, ConvertError>(ConvertError::NoDifficulty)
                } else {
                    r matches Ok(list) && list@ == jobs
                }
            },
        },
{
    match inspect(bytes) {
        Err(e) => Err(ConvertError::Flp(e)),
        Ok(info) => {
            let slots: DifficultySlots = find_difficulty_patterns(&info);
            if slots.any() {
                Ok(jobs_of(&slots))
            } else {
                Err(ConvertError::NoDifficulty)
            }
        },
    }
}

/// What one difficulty of a project is converted from: the notes of its pattern. As
/// everywhere, a tempo of the settings stands in for that of the project.
pub open spec fn split_chart_input(bytes: Seq<u8>, pattern_id: u16, preset: ConversionPreset) -> Result<
    ChartInputView,
    ConvertError,
> {
    match flp_project(bytes, Some(pattern_id)) {
        Err(e) => Err(ConvertError::Flp(e)),
        Ok(project) => match start_tempo(project.tempo, preset.base_bpm_override) {
            None => Err(ConvertError::NoProjectTempo),
            Some(base) => if project.ppq == 0 {
                Err(ConvertError::ZeroPpq)
            } else {
                Ok(ChartInputView { notes: project.notes, ppq: project.ppq, base })
            },
        },
    }
}

/// Reads one difficulty of a project. Progress reports go to `log`.
pub fn split_input(
    bytes: &[u8],
    job: &SplitJob,
    preset: &ConversionPreset,
    log: &mut Vec<Progress>,
) -> (r: Result<ChartInput, ConvertError>)
    ensures
        same_input(r, split_chart_input(bytes@, job.pattern_id, *preset)),
        final(log)@ == old(log)@.push(Progress::Stage("Parsing notes")) + flp_reports(
            bytes@,
            Some(job.pattern_id),
        ),
{
    log.push(Progress::Stage("Parsing notes"));
    match parse_flp(bytes, Some(job.pattern_id), log) {
        Err(e) => Err(ConvertError::Flp(e)),
        Ok(project) => match choose_tempo(project.tempo, preset.base_bpm_override) {
            None => Err(ConvertError::NoProjectTempo),
            Some(base) => {
                if project.ppq == 0 {
                    Err(ConvertError::ZeroPpq)
                } else {
                    Ok(ChartInput { notes: project.notes, ppq: project.ppq, base })
                }
            },
        },
    }
}

/// The sections of a chart.
#[derive(Clone, Debug, PartialEq, Eq)]
pub struct Chart {
    pub sections: Vec<Section>,
    /// Number of notes in all sections together.
    pub written: usize,
}

impl Chart {
    /// The number of notes is right.
    pub open spec fn well_formed(&self) -> bool {
        self.written == note_sum(section_views(self.sections@), self.sections@.len())
    }
}

/// The sections that notes make, without `mustHitSection` and tempos.
pub open spec fn raw_sections(input: ChartInputView, preset: ConversionPreset) -> Seq<SectionView> {
    grouped_sections(input.notes, input.ppq, preset)
}

/// The sections that notes make, with `mustHitSection` and tempos carried through.
pub open spec fn resolved_sections(input: ChartInputView, preset: ConversionPreset) -> Seq<SectionView> {
    let raw = raw_sections(input, preset);
    Seq::new(
        raw.len(),
        |i: int|
            SectionView {
                must_hit_section: must_hit_at(raw, i),
                base_tempo: tempo_at(raw, input.base, preset.bpm_changes@, i),
                ..raw[i]
            },
    )
}

/// Tempo changes depend on nothing but the tempo-change markers.
proof fn lemma_same_changes(a: Seq<SectionView>, b: Seq<SectionView>, changes: Seq<Real>, n: nat)
    requires
        n <= a.len() == b.len(),
        forall|i: int| 0 <= i < a.len() ==> (#[trigger] a[i]).bpm_change == b[i].bpm_change,
    ensures
        changes_among(a, n) == changes_among(b, n),
        timing_error(a, changes, n) == timing_error(b, changes, n),
    decreases n,
{
    if n > 0 {
        lemma_same_changes(a, b, changes, (n - 1) as nat);
        assert(a[n - 1].bpm_change == b[n - 1].bpm_change);
        assert(change_error(a, changes, n - 1) == change_error(b, changes, n - 1));
    }
}

/// Makes the sections of a chart: groups the notes, carries `mustHitSection`
/// through the sections and tells every section its tempo. Progress reports go to
/// `log`.
pub fn build_chart(input: &ChartInput, preset: &ConversionPreset, log: &mut Vec<Progress>) -> (r: Result<
    Chart,
    ConvertError,
>)
    requires
        input.ppq > 0,
    ensures
        match timing_error(
            raw_sections(input@, *preset),
            preset.bpm_changes@,
            raw_sections(input@, *preset).len(),
        ) {
            Some(e) => r == Err::<Chart, ConvertError>(ConvertError::Timing(e)),
            None => {
                &&& r matches Ok(chart)
                &&& section_views(chart.sections@) == resolved_sections(input@, *preset)
                &&& chart.written == written_total(input.notes@, *preset)
                &&& chart.well_formed()
            },
        },
        final(log)@ == old(log)@.push(Progress::Stage("Grouping notes into sections"))
            + item_reports(input.notes@.len(), input.notes@.len()),
{
    log.push(Progress::Stage("Grouping notes into sections"));
    let ghost raw = raw_sections(input@, *preset);
    let (mut sections, written) = group_notes(&input.notes, input.ppq, preset, log);
    assert(section_views(sections@) == raw);
    resolve_must_hit_sections(&mut sections);
    let ghost held = section_views(sections@);
    proof {
        assert(held.len() == raw.len());
        assert forall|i: int| 0 <= i < held.len() implies (#[trigger] held[i]).bpm_change
            == raw[i].bpm_change by {
            assert(held[i] == sections@[i]@);
        }
        lemma_same_changes(held, raw, preset.bpm_changes@, raw.len());
    }
    match resolve_section_timing(&mut sections, input.base, &preset.bpm_changes) {
        Err(e) => Err(ConvertError::Timing(e)),
        Ok(()) => {
            proof {
                let done = section_views(sections@);
                assert forall|i: int| 0 <= i < raw.len() implies #[trigger] done[i]
                    == resolved_sections(input@, *preset)[i] by {
                    lemma_same_changes(held, raw, preset.bpm_changes@, (i + 1) as nat);
                    assert(done[i] == sections@[i]@);
                }
                assert(done =~= resolved_sections(input@, *preset));
                chart_holds_all_notes(input@, *preset);
            }
            Ok(Chart { sections, written })
        },
    }
}

proof fn lemma_same_notes(a: Seq<SectionView>, b: Seq<SectionView>, n: nat)
    requires
        n <= a.len() == b.len(),
        forall|i: int| 0 <= i < a.len() ==> (#[trigger] a[i]).notes == b[i].notes,
    ensures
        note_sum(a, n) == note_sum(b, n),
        note_bag(a, n) == note_bag(b, n),
    decreases n,
{
    if n > 0 {
        lemma_same_notes(a, b, (n - 1) as nat);
        assert(a[n - 1].notes == b[n - 1].notes);
    }
}

/// A chart holds every note of its input that has a lane, each as often as it comes,
/// and no other. Where the input has notes the chart has sections.
pub proof fn chart_holds_all_notes(input: ChartInputView, preset: ConversionPreset)
    requires
        input.ppq > 0,
    ensures
        note_bag(resolved_sections(input, preset), resolved_sections(input, preset).len()) == lane_notes(
            input.notes,
            preset,
        ).to_multiset(),
        note_sum(resolved_sections(input, preset), resolved_sections(input, preset).len())
            == written_total(input.notes, preset),
        input.notes.len() > 0 ==> resolved_sections(input, preset).len() > 0,
{
    let raw = raw_sections(input, preset);
    let resolved = resolved_sections(input, preset);
    grouping_keeps_all_notes(input.notes, input.ppq, preset);
    lemma_same_notes(resolved, raw, raw.len());
    if input.notes.len() > 0 {
        notes_make_a_section(input.notes, input.ppq);
    }
}

/// What is converted has notes and ticks.
pub proof fn inputs_have_notes_and_ticks(
    notes: Seq<FlNote>,
    ppq: u16,
    tempo: Option<u32>,
    override_tempo: Option<Real>,
    no_notes: ConvertError,
    no_tempo: ConvertError,
)
    ensures
        chart_input(notes, ppq, tempo, override_tempo, no_notes, no_tempo) matches Ok(input)
            ==> input.ppq > 0 && input.notes.len() > 0,
{
}

/// The pattern of a difficulty has notes: a chart of it is never empty.
pub proof fn difficulties_have_notes(bytes: Seq<u8>, k: int, preset: ConversionPreset)
    requires
        input_info(bytes) is Ok,
        ({
            let patterns = input_info(bytes)->Ok_0.1;
            0 <= k < split_jobs(difficulty_slots(patterns, patterns.len())).len()
        }),
        !is_score(bytes),
    ensures
        ({
            let patterns = input_info(bytes)->Ok_0.1;
            let job = split_jobs(difficulty_slots(patterns, patterns.len()))[k];
            &&& flp_project(bytes, Some(job.pattern_id)) matches Ok(project)
                ==> project.notes.len() > 0
            &&& split_chart_input(bytes, job.pattern_id, preset) matches Ok(input)
                ==> input.notes.len() > 0
        }),
{
    let patterns = input_info(bytes)->Ok_0.1;
    let slots = difficulty_slots(patterns, patterns.len());
    let job = split_jobs(slots)[k];
    let id = job.pattern_id;
    let n = patterns.len();
    first_match_is_first(patterns, n, "easy"@);
    first_match_is_first(patterns, n, "normal"@);
    first_match_is_first(patterns, n, "hard"@);
    assert(slots.easy == Some(id) || slots.normal == Some(id) || slots.hard == Some(id));
    let word = if slots.easy == Some(id) {
        "easy"@
    } else if slots.normal == Some(id) {
        "normal"@
    } else {
        "hard"@
    };
    let i = choose|i: int| #[trigger] is_first_match(patterns, n, word, i) && patterns[i].id == id;
    if flp_project(bytes, Some(id)) is Ok {
        listed_count_is_number_of_notes(bytes, id);
        parsing_agrees_with_inspection(bytes, Some(id));
        let project = flp_project(bytes, Some(id))->Ok_0;
        let j = choose|j: int|
            #![trigger project.patterns[j]]
            0 <= j < project.patterns.len() && project.patterns[j].id == id
                && project.patterns[j].note_count == project.notes.len();
        listed_patterns_are_distinct(bytes, i, j);
    }
}

/// The settings with another pattern selected.
pub open spec fn with_pattern_id(preset: ConversionPreset, id: u16) -> ConversionPreset {
    ConversionPreset { pattern_id: id, ..preset }
}

/// Once the notes are read, it makes no difference which pattern the settings
/// select: the chart is the same, and so is what goes wrong with it.
pub proof fn chart_ignores_pattern_id(input: ChartInputView, preset: ConversionPreset, id: u16)
    ensures
        raw_sections(input, with_pattern_id(preset, id)) == raw_sections(input, preset),
        resolved_sections(input, with_pattern_id(preset, id)) == resolved_sections(input, preset),
        written_total(input.notes, with_pattern_id(preset, id)) == written_total(input.notes, preset),
{
    let other = with_pattern_id(preset, id);
    sections_depend_on_roles(input.notes, input.ppq, other, preset);
    assert(resolved_sections(input, other) =~= resolved_sections(input, preset));
}

/// A difficulty of a project is what a single conversion of its pattern gives; only
/// the wording of a missing tempo differs. Patterns without notes are no
/// difficulties.
pub proof fn difficulty_is_single_conversion(bytes: Seq<u8>, id: u16, preset: ConversionPreset)
    requires
        !is_score(bytes),
        flp_project(bytes, Some(id)) matches Ok(project) ==> project.notes.len() > 0,
    ensures
        single_chart_input(bytes, with_pattern_id(preset, id)) == match split_chart_input(
            bytes,
            id,
            preset,
        ) {
            Err(ConvertError::NoProjectTempo) => Err(ConvertError::NoTempo),
            result => result,
        },
{
}

/// The number of slots that are filled.
pub open spec fn filled_slots(slots: DifficultySlots) -> nat {
    (if slots.easy is Some {
        1nat
    } else {
        0nat
    }) + (if slots.normal is Some {
        1nat
    } else {
        0nat
    }) + (if slots.hard is Some {
        1nat
    } else {
        0nat
    })
}

/// There is one chart for every slot that is filled.
pub proof fn one_job_per_slot(slots: DifficultySlots)
    ensures
        split_jobs(slots).len() == filled_slots(slots),
{
}

/// An input of a batch is converted as a single conversion of its pattern converts
/// it. Which pattern that is, the name decides: a project that has it under the
/// selected identifier, or not at all, goes by the settings as they are, and so does
/// a score.
pub proof fn batch_input_is_single_conversion(
    bytes: Seq<u8>,
    name: Option<Seq<char>>,
    preset: ConversionPreset,
)
    ensures
        batch_chart_input(bytes, name, preset) == single_chart_input(
            bytes,
            with_pattern_id(preset, batch_pattern(bytes, name, preset.pattern_id)),
        ),
        batch_pattern(bytes, name, preset.pattern_id) == preset.pattern_id ==> batch_chart_input(
            bytes,
            name,
            preset,
        ) == single_chart_input(bytes, preset),
        is_score(bytes) ==> batch_pattern(bytes, name, preset.pattern_id) == preset.pattern_id,
        name is None ==> batch_pattern(bytes, name, preset.pattern_id) == preset.pattern_id,
        !is_score(bytes) && name is Some && flp_project(bytes, None) is Ok ==> batch_pattern(
            bytes,
            name,
            preset.pattern_id,
        ) == match id_by_name(flp_project(bytes, None)->Ok_0.patterns, name->0) {
            Some(found) => found,
            None => preset.pattern_id,
        },
{
}

/// The first pattern with a name is found by it.
pub proof fn first_pattern_with_name_is_found(patterns: Seq<PatternView>, name: Seq<char>, k: int)
    requires
        0 <= k < patterns.len(),
        patterns[k].name == name,
        forall|m: int| 0 <= m < k ==> (#[trigger] patterns[m]).name != name,
    ensures
        id_by_name(patterns, name) == Some(patterns[k].id),
    decreases patterns.len(),
{
    if k > 0 {
        assert(patterns[0].name != name);
        let rest = patterns.skip(1);
        assert forall|m: int| 0 <= m < k - 1 implies (#[trigger] rest[m]).name != name by {
            assert(rest[m] == patterns[m + 1]);
        }
        first_pattern_with_name_is_found(rest, name, k - 1);
    }
}

/// A name that no pattern has finds none.
pub proof fn unknown_name_is_not_found(patterns: Seq<PatternView>, name: Seq<char>)
    requires
        forall|m: int| 0 <= m < patterns.len() ==> (#[trigger] patterns[m]).name != name,
    ensures
        id_by_name(patterns, name) is None,
    decreases patterns.len(),
{
    if patterns.len() > 0 {
        unknown_name_is_not_found(patterns.skip(1), name);
    }
}

/// What other inputs are searched for is the name of the selected pattern; where there is
/// no pattern with the identifier, that of the first one.
pub proof fn target_is_the_selected_name(patterns: Seq<PatternView>, id: u16)
    ensures
        forall|k: int|
            #![trigger patterns[k]]
            0 <= k < patterns.len() && patterns[k].id == id && (forall|m: int|
                0 <= m < k ==> (#[trigger] patterns[m]).id != id) ==> target_name(patterns, id)
                == patterns[k].name,
        patterns.len() > 0 && (forall|m: int|
            0 <= m < patterns.len() ==> (#[trigger] patterns[m]).id != id) ==> target_name(
            patterns,
            id,
        ) == patterns[0].name,
        patterns.len() == 0 ==> target_name(patterns, id) == "Pattern "@ + decimal(id as nat),
{
    assert forall|k: int|
        #![trigger patterns[k]]
        0 <= k < patterns.len() && patterns[k].id == id && (forall|m: int|
            0 <= m < k ==> (#[trigger] patterns[m]).id != id) implies target_name(patterns, id)
        == patterns[k].name by {
        first_pattern_with_id_is_found(patterns, id, k);
    }
    if forall|m: int| 0 <= m < patterns.len() ==> (#[trigger] patterns[m]).id != id {
        unknown_id_is_not_found(patterns, id);
    }
}

/// A tempo of the settings comes before that of the input; without either there is none.
pub proof fn given_tempo_comes_first(tempo: Option<u32>, override_tempo: Option<Real>)
    ensures
        forall|given: Real|
            start_tempo(tempo, override_tempo) == Some(BaseTempo::Given(given)) <==> override_tempo
                == Some(given),
        forall|milli: u32|
            start_tempo(tempo, override_tempo) == Some(BaseTempo::Milli(milli)) <==> override_tempo
                is None && tempo == Some(milli),
{
}

/// A chart is made from all the notes, at the ticks and tempo that are known. It fails
/// exactly without notes, without a tempo or without ticks, in this order.
pub proof fn chart_inputs_take_all_notes(
    notes: Seq<FlNote>,
    ppq: u16,
    tempo: Option<u32>,
    override_tempo: Option<Real>,
    no_notes: ConvertError,
    no_tempo: ConvertError,
)
    ensures
        ({
            let input = chart_input(notes, ppq, tempo, override_tempo, no_notes, no_tempo);
            let timed = tempo is Some || override_tempo is Some;
            &&& notes.len() > 0 && timed && ppq > 0 ==> {
                &&& input is Ok
                &&& input->Ok_0.notes == notes
                &&& input->Ok_0.ppq == ppq
                &&& input->Ok_0.base == match override_tempo {
                    Some(given) => BaseTempo::Given(given),
                    None => BaseTempo::Milli(tempo->0),
                }
            }
            &&& notes.len() == 0 ==> input == Err::<ChartInputView, ConvertError>(no_notes)
            &&& notes.len() > 0 && !timed ==> input == Err::<ChartInputView, ConvertError>(no_tempo)
            &&& notes.len() > 0 && timed && ppq == 0 ==> input == Err::<
                ChartInputView,
                ConvertError,
            >(ConvertError::ZeroPpq)
        }),
{
}

/// A single conversion takes all the notes of the selected pattern of a project, or all
/// the notes of a score, at the ticks of the file.
pub proof fn single_conversion_takes_the_pattern(bytes: Seq<u8>, preset: ConversionPreset)
    ensures
        ({
            let input = single_chart_input(bytes, preset);
            let read = if is_score(bytes) {
                fsc_project(bytes)
            } else {
                flp_project(bytes, Some(preset.pattern_id))
            };
            match read {
                Err(e) => input == Err::<ChartInputView, ConvertError>(ConvertError::Flp(e)),
                Ok(project) => {
                    let timed = project.tempo is Some || preset.base_bpm_override is Some;
                    &&& project.notes.len() == 0 ==> input == Err::<ChartInputView, ConvertError>(
                        ConvertError::NoNotes,
                    )
                    &&& project.notes.len() > 0 && !timed ==> input == Err::<
                        ChartInputView,
                        ConvertError,
                    >(ConvertError::NoTempo)
                    &&& project.notes.len() > 0 && timed && project.ppq == 0 ==> input == Err::<
                        ChartInputView,
                        ConvertError,
                    >(ConvertError::ZeroPpq)
                    &&& project.notes.len() > 0 && timed && project.ppq > 0 ==> {
                        &&& input is Ok
                        &&& input->Ok_0.notes == project.notes
                        &&& input->Ok_0.ppq == project.ppq
                        &&& input->Ok_0.base == match preset.base_bpm_override {
                            Some(given) => BaseTempo::Given(given),
                            None => BaseTempo::Milli(project.tempo->0),
                        }
                    }
                },
            }
        }),
{
}

/// A score that is merged adds all its notes, whatever name is searched for.
pub proof fn merged_scores_add_all_notes(bytes: Seq<u8>, name: Seq<char>)
    requires
        is_score(bytes),
    ensures
        match fsc_project(bytes) {
            Err(e) => added_notes(bytes, name) == Err::<Option<Seq<FlNote>>, FlpError>(e),
            Ok(project) => added_notes(bytes, name) == Ok::<Option<Seq<FlNote>>, FlpError>(
                Some(project.notes),
            ),
        },
{
}

/// A project that is merged adds all the notes of its first pattern with the name, as
/// reading that pattern alone gives them.
pub proof fn merged_projects_add_the_named_pattern(bytes: Seq<u8>, name: Seq<char>, k: int)
    requires
        !is_score(bytes),
        flp_info(bytes) is Ok,
        0 <= k < flp_info(bytes)->Ok_0.1.len(),
        flp_info(bytes)->Ok_0.1[k].name == name,
        forall|m: int| 0 <= m < k ==> (#[trigger] flp_info(bytes)->Ok_0.1[m]).name != name,
    ensures
        match flp_project(bytes, Some(flp_info(bytes)->Ok_0.1[k].id)) {
            Err(e) => added_notes(bytes, name) == Err::<Option<Seq<FlNote>>, FlpError>(e),
            Ok(project) => added_notes(bytes, name) == Ok::<Option<Seq<FlNote>>, FlpError>(
                Some(project.notes),
            ),
        },
{
    listing_reads_what_inspection_lists(bytes);
    first_pattern_with_name_is_found(flp_info(bytes)->Ok_0.1, name, k);
}

/// A project without a pattern of the name adds nothing.
pub proof fn merged_projects_without_the_name_add_nothing(bytes: Seq<u8>, name: Seq<char>)
    requires
        !is_score(bytes),
        flp_info(bytes) is Ok,
        forall|m: int|
            0 <= m < flp_info(bytes)->Ok_0.1.len() ==> (#[trigger] flp_info(bytes)->Ok_0.1[m]).name
                != name,
    ensures
        added_notes(bytes, name) == Ok::<Option<Seq<FlNote>>, FlpError>(None),
{
    listing_reads_what_inspection_lists(bytes);
    unknown_name_is_not_found(flp_info(bytes)->Ok_0.1, name);
}

/// Adding an input to a merge keeps all notes that are there, in their place, and puts
/// the new ones behind them. Ticks, tempo and name are those of the first input; an input
/// that adds nothing is listed by its file name, and no other is.
pub proof fn merging_only_adds(state: MergeView, bytes: Seq<u8>, file_name: Option<Seq<char>>, id: u16)
    ensures
        merged(state, bytes, file_name, id) matches Ok(next) ==> {
            &&& next.notes.len() >= state.notes.len()
            &&& next.notes.take(state.notes.len() as int) == state.notes
            &&& state.target is None ==> {
                &&& input_project(bytes, id) matches Ok(project)
                &&& next.notes.skip(state.notes.len() as int) == project.notes
                &&& next.ppq == project.ppq
                &&& next.tempo == project.tempo
                &&& next.target == Some(target_name(project.patterns, id))
                &&& next.skipped == state.skipped
            }
            &&& state.target matches Some(name) ==> {
                &&& next.ppq == state.ppq
                &&& next.tempo == state.tempo
                &&& next.target == state.target
                &&& match added_notes(bytes, name) {
                    Ok(Some(notes)) => next.notes.skip(state.notes.len() as int) == notes
                        && next.skipped == state.skipped,
                    Ok(None) => next.notes == state.notes && next.skipped.len()
                        == state.skipped.len() + 1 && next.skipped.drop_last() == state.skipped
                        && next.skipped.last() == match file_name {
                        Some(text) => text,
                        None => "(unknown)"@,
                    },
                    Err(_) => false,
                }
            }
        },
        merged(state, bytes, file_name, id) is Err <==> match state.target {
            None => input_project(bytes, id) is Err,
            Some(name) => added_notes(bytes, name) is Err,
        },
{
    if let Ok(next) = merged(state, bytes, file_name, id) {
        assert(next.notes.take(state.notes.len() as int) =~= state.notes);
        let added = next.notes.skip(state.notes.len() as int);
        if let Some(name) = state.target {
            match added_notes(bytes, name) {
                Ok(Some(notes)) => {
                    assert(added =~= notes);
                },
                Ok(None) => {
                    assert(next.skipped.drop_last() =~= state.skipped);
                },
                Err(_) => {},
            }
        } else {
            assert(added =~= input_project(bytes, id)->Ok_0.notes);
        }
    }
}

/// A merge has as many notes as its inputs add together.
pub proof fn merge_counts_all_notes(inputs: Seq<(Seq<u8>, Option<Seq<char>>)>, id: u16, n: nat)
    requires
        0 < n < inputs.len(),
        merged_inputs(inputs, id, n + 1) is Ok,
    ensures
        ({
            let before = merged_inputs(inputs, id, n)->Ok_0;
            let after = merged_inputs(inputs, id, n + 1)->Ok_0;
            let bytes = inputs[n as int].0;
            &&& merged_inputs(inputs, id, n) is Ok
            &&& is_score(bytes) ==> fsc_project(bytes) is Ok && after.notes == before.notes
                + fsc_project(bytes)->Ok_0.notes
            &&& after.notes.len() == before.notes.len() + match added_notes(
                bytes,
                target_name(input_project(inputs[0].0, id)->Ok_0.patterns, id),
            ) {
                Ok(Some(notes)) => notes.len(),
                _ => 0,
            }
        }),
{
    merging_concatenates(inputs, id, n);
    let before = merged_inputs(inputs, id, n)->Ok_0;
    merging_only_adds(before, inputs[n as int].0, inputs[n as int].1, id);
    if is_score(inputs[n as int].0) {
        merged_scores_add_all_notes(inputs[n as int].0, before.target->0);
    }
}

/// A difficulty has the suffix of its slot, and normal none; a free slot gives no chart.
pub proof fn jobs_have_the_suffix_of_their_slot(slots: DifficultySlots)
    ensures
        ({
            let jobs = split_jobs(slots);
            let easy = if slots.easy is Some {
                1int
            } else {
                0int
            };
            let normal = if slots.normal is Some {
                1int
            } else {
                0int
            };
            let hard = if slots.hard is Some {
                1int
            } else {
                0int
            };
            &&& jobs.len() == easy + normal + hard
            &&& slots.easy matches Some(id) ==> jobs[0].pattern_id == id && jobs[0].suffix@
                == "-easy"@
            &&& slots.normal matches Some(id) ==> jobs[easy].pattern_id == id && jobs[easy].suffix@
                == ""@
            &&& slots.hard matches Some(id) ==> jobs[easy + normal].pattern_id == id
                && jobs[easy + normal].suffix@ == "-hard"@
        }),
{
}

/// An input of a batch takes the pattern with the known name, wherever it stands and
/// whatever its identifier, and otherwise the selected one.
pub proof fn batches_go_by_name(bytes: Seq<u8>, name: Seq<char>, id: u16, k: int)
    requires
        !is_score(bytes),
        flp_info(bytes) is Ok,
    ensures
        0 <= k < flp_info(bytes)->Ok_0.1.len() && flp_info(bytes)->Ok_0.1[k].name == name && (
        forall|m: int| 0 <= m < k ==> (#[trigger] flp_info(bytes)->Ok_0.1[m]).name != name)
            ==> batch_pattern(bytes, Some(name), id) == flp_info(bytes)->Ok_0.1[k].id,
        (forall|m: int|
            0 <= m < flp_info(bytes)->Ok_0.1.len() ==> (#[trigger] flp_info(bytes)->Ok_0.1[m]).name
                != name) ==> batch_pattern(bytes, Some(name), id) == id,
{
    let patterns = flp_info(bytes)->Ok_0.1;
    listing_reads_what_inspection_lists(bytes);
    if 0 <= k < patterns.len() && patterns[k].name == name && (forall|m: int|
        0 <= m < k ==> (#[trigger] patterns[m]).name != name) {
        first_pattern_with_name_is_found(patterns, name, k);
    }
    if forall|m: int| 0 <= m < patterns.len() ==> (#[trigger] patterns[m]).name != name {
        unknown_name_is_not_found(patterns, name);
    }
}

/// The name that a batch goes by is set by the first input that can be read and never
/// changes after that.
pub proof fn batch_name_is_set_once(bytes: Seq<u8>, name: Option<Seq<char>>, id: u16)
    ensures
        name is Some ==> batch_name(bytes, name, id) == name,
        name is None && input_project(bytes, id) is Ok ==> batch_name(bytes, name, id) == Some(
            target_name(input_project(bytes, id)->Ok_0.patterns, id),
        ),
        name is None && input_project(bytes, id) is Err ==> batch_name(bytes, name, id) is None,
{
}

/// The sections of a chart are the grouped ones: only tempo and `mustHitSection` are added
/// to them.
pub proof fn chart_keeps_grouped_sections(input: ChartInputView, preset: ConversionPreset, i: int)
    requires
        0 <= i < section_total(input.notes, input.ppq),
    ensures
        resolved_sections(input, preset).len() == section_total(input.notes, input.ppq),
        ({
            let section = resolved_sections(input, preset)[i];
            let grouped = grouped_section(input.notes, input.ppq, preset, i);
            &&& section.notes == grouped.notes
            &&& section.alt == grouped.alt
            &&& section.bpm_change == grouped.bpm_change
            &&& section.alt_anim == grouped.alt_anim
            &&& section.must_hit_marker == grouped.must_hit_marker
            &&& section.must_hit_marker matches Some((_, value)) ==> section.must_hit_section
                == value
            &&& section.must_hit_marker is None ==> section.must_hit_section == (i > 0
                && resolved_sections(input, preset)[i - 1].must_hit_section)
            &&& !section.bpm_change ==> section.base_tempo == if i == 0 {
                input.base
            } else {
                resolved_sections(input, preset)[i - 1].base_tempo
            }
            &&& section.bpm_change ==> section.base_tempo == BaseTempo::Given(
                preset.bpm_changes@[raw_sections(input, preset).take(i).filter(
                    |s: SectionView| s.bpm_change,
                ).len() as int],
            )
        }),
{
    reveal_with_fuel(changes_among, 2);
    reveal_with_fuel(must_hit_at, 2);
    tempos_go_in_order(raw_sections(input, preset), input.base, preset.bpm_changes@, i);
}

/// In a chart every note with a lane stands in the section whose ticks hold its position,
/// with exactly its position, length and portamento, whatever its velocity; a velocity
/// below 64 forces a tail.
pub proof fn every_lane_note_is_in_the_chart(
    input: ChartInputView,
    preset: ConversionPreset,
    k: int,
    m: int,
)
    requires
        input.ppq > 0,
        0 <= k < input.notes.len(),
        input.notes[k].key != preset.alt_marker_pitch,
        input.notes[k].key != 53 && input.notes[k].key != 54,
        input.notes[k].key != 56 && input.notes[k].key != 57,
        0 <= m < preset.mapping@.len(),
        preset.mapping@[m].pitch == input.notes[k].key,
        forall|j: int|
            m < j < preset.mapping@.len() ==> (#[trigger] preset.mapping@[j]).pitch
                != input.notes[k].key,
    ensures
        ({
            let i = input.notes[k].position as int / (input.ppq * 4);
            &&& 0 <= i < resolved_sections(input, preset).len()
            &&& resolved_sections(input, preset)[i].notes.contains(
                ChartNote {
                    position: input.notes[k].position,
                    length: input.notes[k].length,
                    direction: preset.mapping@[m].direction,
                    player: preset.mapping@[m].side == Side::Player,
                    portamento: input.notes[k].portamento,
                    force_sustain: input.notes[k].velocity < 64,
                },
            )
        }),
{
    mapped_pitches_have_lanes(preset, input.notes[k].key, m);
    every_lane_note_is_charted(
        input.notes,
        input.ppq,
        preset,
        k,
        preset.mapping@[m].direction,
        preset.mapping@[m].side == Side::Player,
    );
}

/// What is seen of an input and of a merge is everything they hold.
pub proof fn views_show_whole_inputs(input: ChartInput, merge: Merge)
    ensures
        input@.notes == input.notes@,
        input@.ppq == input.ppq,
        input@.base == input.base,
        merge@.notes == merge.notes@,
        merge@.ppq == merge.ppq,
        merge@.tempo == merge.tempo,
        merge.target matches Some(name) ==> merge@.target == Some(name@),
        merge.target is None ==> merge@.target is None,
        merge@.skipped == merge.skipped@.map_values(|name: String| name@),
{
    assert(merge@.skipped =~= merge.skipped@.map_values(|name: String| name@));
}

/// A project that cannot be listed fails a merge, and takes the selected pattern in a
/// batch.
pub proof fn unreadable_projects_fail(bytes: Seq<u8>, name: Seq<char>, id: u16)
    requires
        !is_score(bytes),
        flp_info(bytes) is Err,
    ensures
        added_notes(bytes, name) == Err::<Option<Seq<FlNote>>, FlpError>(flp_info(bytes)->Err_0),
        batch_pattern(bytes, Some(name), id) == id,
{
    listing_reads_what_inspection_lists(bytes);
}

/// A difficulty takes all the notes of its pattern, at the ticks of the project and at the
/// tempo of the settings, else that of the project.
pub proof fn difficulties_take_the_pattern(bytes: Seq<u8>, id: u16, preset: ConversionPreset)
    ensures
        match flp_project(bytes, Some(id)) {
            Err(e) => split_chart_input(bytes, id, preset) == Err::<ChartInputView, ConvertError>(
                ConvertError::Flp(e),
            ),
            Ok(project) => {
                let input = split_chart_input(bytes, id, preset);
                let timed = project.tempo is Some || preset.base_bpm_override is Some;
                &&& !timed ==> input == Err::<ChartInputView, ConvertError>(
                    ConvertError::NoProjectTempo,
                )
                &&& timed && project.ppq == 0 ==> input == Err::<ChartInputView, ConvertError>(
                    ConvertError::ZeroPpq,
                )
                &&& timed && project.ppq > 0 ==> {
                    &&& input is Ok
                    &&& input->Ok_0.notes == project.notes
                    &&& input->Ok_0.ppq == project.ppq
                    &&& input->Ok_0.base == match preset.base_bpm_override {
                        Some(given) => BaseTempo::Given(given),
                        None => BaseTempo::Milli(project.tempo->0),
                    }
                }
            },
        },
{
}

/// A result is told exactly: an input where one is owed, with everything it holds, and the
/// error where one is owed.
pub proof fn results_are_told_exactly(
    input: ChartInput,
    error: ConvertError,
    v: Result<ChartInputView, ConvertError>,
)
    ensures
        same_input(Ok(input), v) <==> v == Ok::<ChartInputView, ConvertError>(input@),
        same_input(Err(error), v) <==> v == Err::<ChartInputView, ConvertError>(error),
{
}

/// A merge reports on the notes that are read: those of the first input as on those of a
/// single one, and later those that are added.
pub proof fn merges_report_what_they_read(state: MergeView, bytes: Seq<u8>, id: u16, k: int)
    ensures
        state.target is None ==> merge_reports(state, bytes, id) == input_reports(bytes, id),
        state.target is Some && is_score(bytes) ==> merge_reports(state, bytes, id) == fsc_reports(
            bytes,
        ),
        (state.target is Some && !is_score(bytes) && flp_info(bytes) is Ok && 0 <= k
            < flp_info(bytes)->Ok_0.1.len() && flp_info(bytes)->Ok_0.1[k].name == state.target->0
            && forall|m: int|
            0 <= m < k ==> (#[trigger] flp_info(bytes)->Ok_0.1[m]).name != state.target->0)
            ==> merge_reports(state, bytes, id) == flp_reports(
            bytes,
            Some(flp_info(bytes)->Ok_0.1[k].id),
        ),
{
    listing_reads_what_inspection_lists(bytes);
    if state.target is Some && !is_score(bytes) && flp_info(bytes) is Ok && 0 <= k
        < flp_info(bytes)->Ok_0.1.len() && flp_info(bytes)->Ok_0.1[k].name == state.target->0
        && forall|m: int|
        0 <= m < k ==> (#[trigger] flp_info(bytes)->Ok_0.1[m]).name != state.target->0 {
        first_pattern_with_name_is_found(flp_info(bytes)->Ok_0.1, state.target->0, k);
    }
}

/// A merge begins with nothing.
pub proof fn merges_begin_empty()
    ensures
        empty_merge().notes.len() == 0,
        empty_merge().target is None,
        empty_merge().tempo is None,
        empty_merge().skipped.len() == 0,
{
}

} // verus!
