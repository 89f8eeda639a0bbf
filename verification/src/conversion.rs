//! The course of a conversion: which input is read next, when a chart is made, and
//! what is told at the end. Reading files and writing charts is left to the caller.

use crate::flp::{is_score, FlNote};
use crate::inspect::{difficulty_slots, input_info};
use crate::number::Real;
use crate::pipeline::{
    batch_chart_input, batch_input, batch_name, batch_pattern, chart_input, check_preset,
    difficulties_have_notes, empty_merge, merge_reports, merged, single_chart_input, single_input,
    split_chart_input, split_input, split_jobs, split_plan, ChartInput, ChartInputView, ConvertError,
    Merge, MergeView, SplitJob,
};
use crate::project::{flp_reports, input_reports};
use crate::report::{
    counted, labelled, merge_stats, skipped_text, told_counts_are_counted, Totals,
};
use crate::text::{grouped, quoted, string_view, text_view};
use crate::types::{ConversionMode, ConversionPreset, Progress, Stats};
use vstd::prelude::*;

verus! {

/// What is told of a conversion, as mathematical values.
#[verifier::ext_equal]
pub struct StatsView {
    pub notes: Seq<char>,
    pub sections: Seq<char>,
    pub time: Real,
    pub files: nat,
    pub warnings: Seq<char>,
}

impl View for Stats {
    type V = StatsView;

    open spec fn view(&self) -> StatsView {
        StatsView {
            notes: self.notes@,
            sections: self.sections@,
            time: self.time,
            files: self.files as nat,
            warnings: self.warnings@,
        }
    }
}

/// Totals over several charts, as mathematical values.
#[verifier::ext_equal]
pub struct TotalsView {
    pub notes: nat,
    pub sections: nat,
    pub files: nat,
    pub warnings: Seq<char>,
}

impl View for Totals {
    type V = TotalsView;

    open spec fn view(&self) -> TotalsView {
        TotalsView {
            notes: self.notes as nat,
            sections: self.sections as nat,
            files: self.files as nat,
            warnings: self.warnings@,
        }
    }
}

impl TotalsView {
    /// With one more chart.
    pub open spec fn with(self, stats: StatsView, label: Option<Seq<char>>) -> TotalsView {
        TotalsView {
            notes: self.notes + counted(stats.notes) as nat,
            sections: self.sections + counted(stats.sections) as nat,
            files: self.files + stats.files,
            warnings: self.warnings + labelled(label, stats.warnings),
        }
    }

    /// What is told of all charts together.
    pub open spec fn told(self) -> StatsView {
        StatsView {
            notes: grouped(self.notes),
            sections: grouped(self.sections),
            time: Real { bits: 0 },
            files: self.files,
            warnings: self.warnings,
        }
    }
}

/// A chart to make and write.
#[derive(Clone, Debug, PartialEq, Eq)]
pub struct ChartTask {
    pub input: ChartInput,
    /// The input that the chart is named after.
    pub source: usize,
    /// What the file names carry for the difficulty.
    pub suffix: &'static str,
}

/// A chart to make and write, as mathematical values.
#[verifier::ext_equal]
pub struct ChartTaskView {
    pub input: ChartInputView,
    pub source: nat,
    pub suffix: &'static str,
}

/// What the caller has to do next.
#[derive(Clone, Debug, PartialEq, Eq)]
pub enum Step {
    /// Read the input at this position.
    Read(usize),
    /// Make a chart and write it.
    Chart(ChartTask),
    /// Nothing; this is told of the conversion. The duration is for the caller to set.
    Done(Stats),
}

/// What the caller has to do next, as mathematical values.
#[verifier::ext_equal]
pub enum StepView {
    Read(nat),
    Chart(ChartTaskView),
    Done(StatsView),
}

impl View for Step {
    type V = StepView;

    open spec fn view(&self) -> StepView {
        match *self {
            Step::Read(i) => StepView::Read(i as nat),
            Step::Chart(task) => StepView::Chart(
                ChartTaskView { input: task.input@, source: task.source as nat, suffix: task.suffix },
            ),
            Step::Done(stats) => StepView::Done(stats@),
        }
    }
}

/// A conversion that is under way.
pub struct Conversion {
    pub mode: ConversionMode,
    /// Number of inputs.
    pub count: usize,
    /// The input that is read or charted.
    pub at: usize,
    /// What was gathered from the inputs of a merge.
    pub merge: Merge,
    /// Name of the pattern that a batch converts; known from the first input on.
    pub name: Option<String>,
    /// The project whose difficulties are charted.
    pub file: Vec<u8>,
    pub jobs: Vec<SplitJob>,
    /// Number of jobs that were begun.
    pub job: usize,
    pub totals: Totals,
}

/// A conversion that is under way, as mathematical values.
#[verifier::ext_equal]
pub struct ConversionView {
    pub mode: ConversionMode,
    pub count: nat,
    pub at: nat,
    pub merge: MergeView,
    pub name: Option<Seq<char>>,
    pub file: Seq<u8>,
    pub jobs: Seq<SplitJob>,
    pub job: nat,
    pub totals: TotalsView,
}

impl View for Conversion {
    type V = ConversionView;

    open spec fn view(&self) -> ConversionView {
        ConversionView {
            mode: self.mode,
            count: self.count as nat,
            at: self.at as nat,
            merge: self.merge@,
            name: string_view(self.name),
            file: self.file@,
            jobs: self.jobs@,
            job: self.job as nat,
            totals: self.totals@,
        }
    }
}

/// What comes next, and the conversion after it.
pub type Turn = (Result<StepView, ConvertError>, ConversionView);

/// A conversion before its first input is read.
pub open spec fn fresh(mode: ConversionMode, count: nat) -> ConversionView {
    ConversionView {
        mode,
        count,
        at: 0,
        merge: empty_merge(),
        name: None,
        file: seq![],
        jobs: seq![],
        job: 0,
        totals: TotalsView { notes: 0, sections: 0, files: 0, warnings: seq![] },
    }
}

/// The chart of an input, or why there is none.
pub open spec fn chart_turn(
    c: ConversionView,
    input: Result<ChartInputView, ConvertError>,
    source: nat,
    suffix: &'static str,
) -> Turn {
    match input {
        Err(e) => (Err(e), c),
        Ok(i) => (Ok(StepView::Chart(ChartTaskView { input: i, source, suffix })), c),
    }
}

/// The next input is read; after the last one the totals are told.
pub open spec fn input_turn(c: ConversionView) -> Turn {
    if c.at + 1 < c.count {
        (Ok(StepView::Read(c.at + 1)), ConversionView { at: c.at + 1, ..c })
    } else {
        (Ok(StepView::Done(c.totals.told())), c)
    }
}

/// The next difficulty is charted; after the last one the totals are told.
pub open spec fn job_turn(c: ConversionView, preset: ConversionPreset) -> Turn {
    if c.job < c.jobs.len() {
        let job = c.jobs[c.job as int];
        chart_turn(
            ConversionView { job: c.job + 1, ..c },
            split_chart_input(c.file, job.pattern_id, preset),
            0,
            job.suffix,
        )
    } else {
        (Ok(StepView::Done(c.totals.told())), c)
    }
}

/// The jobs for the difficulties of a file, or why there are none.
pub open spec fn planned_jobs(bytes: Seq<u8>) -> Result<Seq<SplitJob>, ConvertError> {
    match input_info(bytes) {
        Err(e) => Err(ConvertError::Flp(e)),
        Ok((_, patterns)) => {
            let jobs = split_jobs(difficulty_slots(patterns, patterns.len()));
            if jobs.len() == 0 {
                Err(ConvertError::NoDifficulty)
            } else {
                Ok(jobs)
            }
        },
    }
}

/// What comes after an input was read.
///
/// - Single: its chart.
/// - Merge: the next input; after the last one the chart of all, which takes the
///   gathered notes with it.
/// - Difficulties: the chart of the first difficulty.
/// - Batch: its chart; without notes the next input. The first input tells the name
///   of the pattern.
pub open spec fn after_read(
    c: ConversionView,
    bytes: Seq<u8>,
    file_name: Option<Seq<char>>,
    preset: ConversionPreset,
) -> Turn {
    match c.mode {
        ConversionMode::Single => chart_turn(c, single_chart_input(bytes, preset), c.at, ""),
        ConversionMode::Merge => match merged(c.merge, bytes, file_name, preset.pattern_id) {
            Err(e) => (Err(ConvertError::Flp(e)), c),
            Ok(merge) => {
                let next = ConversionView { merge, ..c };
                if c.at + 1 < c.count {
                    (Ok(StepView::Read(c.at + 1)), ConversionView { at: c.at + 1, ..next })
                } else {
                    chart_turn(
                        ConversionView { merge: MergeView { notes: seq![], ..merge }, ..c },
                        chart_input(
                            merge.notes,
                            merge.ppq,
                            merge.tempo,
                            preset.base_bpm_override,
                            ConvertError::NoMergedNotes,
                            ConvertError::NoMergedTempo,
                        ),
                        0,
                        "",
                    )
                }
            },
        },
        ConversionMode::SplitDifficulties => match planned_jobs(bytes) {
            Err(e) => (Err(e), c),
            Ok(jobs) => job_turn(ConversionView { file: bytes, jobs, job: 0, ..c }, preset),
        },
        ConversionMode::Batch => {
            let next = ConversionView { name: batch_name(bytes, c.name, preset.pattern_id), ..c };
            match batch_chart_input(bytes, c.name, preset) {
                Err(ConvertError::NoNotes) => input_turn(next),
                input => chart_turn(next, input, c.at, ""),
            }
        },
    }
}

/// What comes after a chart was written; `stem` is what its input is called.
///
/// - Single: the end.
/// - Merge: the end, with a warning about inputs that were skipped.
/// - Difficulties: the chart of the next difficulty.
/// - Batch: the next input.
pub open spec fn after_written(
    c: ConversionView,
    stats: StatsView,
    stem: Seq<char>,
    preset: ConversionPreset,
) -> Turn {
    match c.mode {
        ConversionMode::Single => (Ok(StepView::Done(stats)), c),
        ConversionMode::Merge => (
            Ok(
                StepView::Done(
                    StatsView {
                        warnings: stats.warnings + skipped_text(
                            c.merge.skipped,
                            quoted(
                                match c.merge.target {
                                    Some(name) => name,
                                    None => ""@,
                                },
                            ),
                        ),
                        ..stats
                    },
                ),
            ),
            c,
        ),
        ConversionMode::SplitDifficulties => job_turn(
            ConversionView { totals: c.totals.with(stats, None), ..c },
            preset,
        ),
        ConversionMode::Batch => input_turn(
            ConversionView { totals: c.totals.with(stats, Some(stem)), ..c },
        ),
    }
}

/// The report before an input is read, where one is read next.
pub open spec fn reading_report(turn: Turn) -> Seq<Progress> {
    match turn.0 {
        Ok(StepView::Read(_)) => seq![Progress::Stage("Reading FLP")],
        _ => seq![],
    }
}

/// The reports on a difficulty, where one is charted next.
pub open spec fn job_reports(c: ConversionView) -> Seq<Progress> {
    if c.job < c.jobs.len() {
        seq![Progress::Stage("Parsing notes")] + flp_reports(
            c.file,
            Some(c.jobs[c.job as int].pattern_id),
        )
    } else {
        seq![]
    }
}

/// The progress reports after an input was read.
pub open spec fn read_reports(
    c: ConversionView,
    bytes: Seq<u8>,
    file_name: Option<Seq<char>>,
    preset: ConversionPreset,
) -> Seq<Progress> {
    match c.mode {
        ConversionMode::Single => seq![Progress::Stage("Parsing notes")] + input_reports(
            bytes,
            preset.pattern_id,
        ),
        ConversionMode::Merge => seq![Progress::Stage("Parsing notes")] + merge_reports(
            c.merge,
            bytes,
            preset.pattern_id,
        ) + reading_report(after_read(c, bytes, file_name, preset)),
        ConversionMode::SplitDifficulties => match planned_jobs(bytes) {
            Err(_) => seq![],
            Ok(jobs) => job_reports(ConversionView { file: bytes, jobs, job: 0, ..c }),
        },
        ConversionMode::Batch => seq![Progress::Stage("Parsing notes")] + input_reports(
            bytes,
            batch_pattern(bytes, c.name, preset.pattern_id),
        ) + reading_report(after_read(c, bytes, file_name, preset)),
    }
}

/// The progress reports after a chart was written.
pub open spec fn written_reports(
    c: ConversionView,
    stats: StatsView,
    stem: Seq<char>,
    preset: ConversionPreset,
) -> Seq<Progress> {
    match c.mode {
        ConversionMode::SplitDifficulties => job_reports(c),
        _ => reading_report(after_written(c, stats, stem, preset)),
    }
}

/// A result says the same as its mathematical counterpart.
pub open spec fn same_step(r: Result<Step, ConvertError>, v: Result<StepView, ConvertError>) -> bool {
    match v {
        Err(e) => r matches Err(f) && f == e,
        Ok(step) => r matches Ok(s) && s@ == step,
    }
}

/// Hands on an input as a chart to make.
fn chart_step(input: Result<ChartInput, ConvertError>, source: usize, suffix: &'static str) -> (r: Result<
    Step,
    ConvertError,
>)
    ensures
        match input {
            Err(e) => r matches Err(f) && f == e,
            Ok(i) => r matches Ok(s) && s@ == StepView::Chart(
                ChartTaskView { input: i@, source: source as nat, suffix },
            ),
        },
{
    match input {
        Err(e) => Err(e),
        Ok(i) => Ok(Step::Chart(ChartTask { input: i, source, suffix })),
    }
}

impl Conversion {
    /// Begins a conversion of so many inputs, the first of which is to be read.
    /// Fails where the settings do. Progress reports go to `log`.
    pub fn start(
        mode: ConversionMode,
        count: usize,
        preset: &ConversionPreset,
        log: &mut Vec<Progress>,
    ) -> (r: Result<Conversion, ConvertError>)
        ensures
            if preset.bpm_multiplier.spec_is_valid_bpm() {
                &&& r matches Ok(c)
                &&& c@ == fresh(mode, count as nat)
                &&& final(log)@ == old(log)@.push(Progress::Stage("Reading FLP"))
            } else {
                &&& r matches Err(e)
                &&& e == ConvertError::InvalidMultiplier
                &&& final(log)@ == old(log)@
            },
    {
        match check_preset(preset) {
            Err(e) => Err(e),
            Ok(()) => {
                log.push(Progress::Stage("Reading FLP"));
                let c: Conversion = Conversion {
                    mode,
                    count,
                    at: 0,
                    merge: Merge::new(),
                    name: None,
                    file: Vec::new(),
                    jobs: Vec::new(),
                    job: 0,
                    totals: Totals::new(),
                };
                assert(c@ =~= fresh(mode, count as nat));
                Ok(c)
            },
        }
    }

    /// Goes on to the next input, or tells the totals.
    fn next_input(&mut self, log: &mut Vec<Progress>) -> (r: Step)
        ensures
            ({
                let turn = input_turn(old(self)@);
                &&& turn.0 == Ok::<StepView, ConvertError>(r@)
                &&& final(self)@ == turn.1
                &&& final(log)@ == old(log)@ + reading_report(turn)
            }),
    {
        if self.count > 0 && self.at < self.count - 1 {
            self.at = self.at + 1;
            log.push(Progress::Stage("Reading FLP"));
            assert(log@ =~= old(log)@ + seq![Progress::Stage("Reading FLP")]);
            Step::Read(self.at)
        } else {
            assert(log@ =~= old(log)@ + seq![]);
            Step::Done(self.totals.stats())
        }
    }

    /// Goes on to the next difficulty, or tells the totals.
    fn next_job(&mut self, preset: &ConversionPreset, log: &mut Vec<Progress>) -> (r: Result<
        Step,
        ConvertError,
    >)
        ensures
            same_step(r, job_turn(old(self)@, *preset).0),
            final(self)@ == job_turn(old(self)@, *preset).1,
            final(log)@ == old(log)@ + job_reports(old(self)@),
    {
        if self.job < self.jobs.len() {
            let job: SplitJob = self.jobs[self.job];
            self.job = self.job + 1;
            let input: Result<ChartInput, ConvertError> = split_input(
                self.file.as_slice(),
                &job,
                preset,
                log,
            );
            assert(log@ =~= old(log)@ + job_reports(old(self)@));
            chart_step(input, 0, job.suffix)
        } else {
            assert(log@ =~= old(log)@ + seq![]);
            Ok(Step::Done(self.totals.stats()))
        }
    }

    /// Takes in an input that was read. Progress reports go to `log`.
    pub fn on_read(
        &mut self,
        bytes: Vec<u8>,
        file_name: Option<&str>,
        preset: &ConversionPreset,
        log: &mut Vec<Progress>,
    ) -> (r: Result<Step, ConvertError>)
        ensures
            same_step(r, after_read(old(self)@, bytes@, text_view(file_name), *preset).0),
            final(self)@ == after_read(old(self)@, bytes@, text_view(file_name), *preset).1,
            final(log)@ == old(log)@ + read_reports(old(self)@, bytes@, text_view(file_name), *preset),
    {
        let ghost reports = read_reports(old(self)@, bytes@, text_view(file_name), *preset);
        match self.mode {
            ConversionMode::Single => {
                let input: Result<ChartInput, ConvertError> = single_input(bytes.as_slice(), preset, log);
                assert(log@ =~= old(log)@ + reports);
                chart_step(input, self.at, "")
            },
            ConversionMode::Merge => {
                match self.merge.add(bytes.as_slice(), file_name, preset, log) {
                    Err(e) => {
                        assert(log@ =~= old(log)@ + reports);
                        Err(e)
                    },
                    Ok(()) => {
                        if self.count > 0 && self.at < self.count - 1 {
                            self.at = self.at + 1;
                            log.push(Progress::Stage("Reading FLP"));
                            assert(log@ =~= old(log)@ + reports);
                            Ok(Step::Read(self.at))
                        } else {
                            let mut notes: Vec<FlNote> = Vec::new();
                            std::mem::swap(&mut notes, &mut self.merge.notes);
                            let gathered: Merge = Merge {
                                notes,
                                ppq: self.merge.ppq,
                                tempo: self.merge.tempo,
                                target: None,
                                skipped: Vec::new(),
                            };
                            assert(log@ =~= old(log)@ + reports);
                            chart_step(gathered.finish(preset), 0, "")
                        }
                    },
                }
            },
            ConversionMode::SplitDifficulties => {
                match split_plan(bytes.as_slice()) {
                    Err(e) => {
                        assert(log@ =~= old(log)@ + reports);
                        Err(e)
                    },
                    Ok(jobs) => {
                        self.file = bytes;
                        self.jobs = jobs;
                        self.job = 0;
                        self.next_job(preset, log)
                    },
                }
            },
            ConversionMode::Batch => {
                match batch_input(bytes.as_slice(), &mut self.name, preset, log) {
                    Err(e) => {
                        assert(log@ =~= old(log)@ + reports);
                        Err(e)
                    },
                    Ok(None) => {
                        let step: Step = self.next_input(log);
                        assert(log@ =~= old(log)@ + reports);
                        Ok(step)
                    },
                    Ok(Some(input)) => {
                        assert(log@ =~= old(log)@ + reports);
                        chart_step(Ok(input), self.at, "")
                    },
                }
            },
        }
    }

    /// Takes in what is told of a chart that was written; `stem` is what its input
    /// is called. Where there are several charts, their totals have to fit. Progress
    /// reports go to `log`.
    pub fn on_written(
        &mut self,
        stats: Stats,
        stem: &str,
        preset: &ConversionPreset,
        log: &mut Vec<Progress>,
    ) -> (r: Result<Step, ConvertError>)
        requires
            old(self).mode == ConversionMode::SplitDifficulties || old(self).mode
                == ConversionMode::Batch ==> old(self).totals.fits(stats),
        ensures
            same_step(r, after_written(old(self)@, stats@, stem@, *preset).0),
            final(self)@ == after_written(old(self)@, stats@, stem@, *preset).1,
            final(log)@ == old(log)@ + written_reports(old(self)@, stats@, stem@, *preset),
    {
        let ghost reports = written_reports(old(self)@, stats@, stem@, *preset);
        match self.mode {
            ConversionMode::Single => {
                assert(log@ =~= old(log)@ + reports);
                Ok(Step::Done(stats))
            },
            ConversionMode::Merge => {
                assert(log@ =~= old(log)@ + reports);
                let target: &str = match &self.merge.target {
                    Some(name) => name.as_str(),
                    None => "",
                };
                Ok(Step::Done(merge_stats(stats, &self.merge.skipped, target)))
            },
            ConversionMode::SplitDifficulties => {
                self.totals.add(&stats, None);
                self.next_job(preset, log)
            },
            ConversionMode::Batch => {
                self.totals.add(&stats, Some(stem));
                let step: Step = self.next_input(log);
                assert(log@ =~= old(log)@ + reports);
                Ok(step)
            },
        }
    }
}

/// How many inputs and difficulties are still to come.
pub open spec fn left_over(c: ConversionView) -> int {
    (c.count - c.at) + (c.jobs.len() - c.job)
}

/// A conversion comes to its end: with every chart that was written, one input or
/// difficulty fewer is left, unless nothing more is to be done.
pub proof fn writing_makes_progress(
    c: ConversionView,
    stats: StatsView,
    stem: Seq<char>,
    preset: ConversionPreset,
)
    ensures
        match after_written(c, stats, stem, preset) {
            (Ok(StepView::Done(_)), _) => true,
            (_, next) => left_over(next) < left_over(c),
        },
{
}

/// Inputs are read in order, each once: after one was read, the next to be read is
/// the one behind it.
pub proof fn inputs_are_read_in_order(
    c: ConversionView,
    bytes: Seq<u8>,
    file_name: Option<Seq<char>>,
    stats: StatsView,
    stem: Seq<char>,
    preset: ConversionPreset,
)
    ensures
        after_read(c, bytes, file_name, preset).0 matches Ok(StepView::Read(i)) ==> i == c.at + 1
            && i < c.count && after_read(c, bytes, file_name, preset).1.at == i,
        after_written(c, stats, stem, preset).0 matches Ok(StepView::Read(i)) ==> i == c.at + 1
            && i < c.count && after_written(c, stats, stem, preset).1.at == i,
{
}

/// The jobs of a conversion are those of its project.
pub open spec fn well_formed(c: ConversionView) -> bool {
    c.mode == ConversionMode::SplitDifficulties && c.jobs.len() > 0 ==> planned_jobs(c.file) == Ok::<
        Seq<SplitJob>,
        ConvertError,
    >(c.jobs)
}

/// A conversion is well formed from its beginning on.
pub proof fn conversion_stays_well_formed(
    c: ConversionView,
    bytes: Seq<u8>,
    file_name: Option<Seq<char>>,
    stats: StatsView,
    stem: Seq<char>,
    preset: ConversionPreset,
)
    ensures
        well_formed(fresh(c.mode, c.count)),
        well_formed(c) ==> well_formed(after_read(c, bytes, file_name, preset).1),
        well_formed(c) ==> well_formed(after_written(c, stats, stem, preset).1),
{
}

/// A step asks for a chart of notes.
pub open spec fn charts_notes(step: Result<StepView, ConvertError>) -> bool {
    step matches Ok(StepView::Chart(task)) ==> task.input.ppq > 0 && task.input.notes.len() > 0
}

proof fn lemma_jobs_chart_notes(c: ConversionView, preset: ConversionPreset)
    requires
        planned_jobs(c.file) == Ok::<Seq<SplitJob>, ConvertError>(c.jobs),
        !is_score(c.file),
    ensures
        charts_notes(job_turn(c, preset).0),
{
    if c.job < c.jobs.len() {
        difficulties_have_notes(c.file, c.job as int, preset);
    }
}

/// No chart is empty: whatever is charted has notes and ticks. For difficulties
/// this is said of projects, which is what they are found in.
pub proof fn charts_are_never_empty(
    c: ConversionView,
    bytes: Seq<u8>,
    file_name: Option<Seq<char>>,
    stats: StatsView,
    stem: Seq<char>,
    preset: ConversionPreset,
)
    requires
        well_formed(c),
        c.mode == ConversionMode::SplitDifficulties ==> !is_score(bytes) && !is_score(c.file),
    ensures
        charts_notes(after_read(c, bytes, file_name, preset).0),
        charts_notes(after_written(c, stats, stem, preset).0),
{
    if c.mode == ConversionMode::SplitDifficulties {
        if let Ok(jobs) = planned_jobs(bytes) {
            lemma_jobs_chart_notes(ConversionView { file: bytes, jobs, job: 0, ..c }, preset);
        }
        if c.jobs.len() > 0 {
            lemma_jobs_chart_notes(
                ConversionView { totals: c.totals.with(stats, None), ..c },
                preset,
            );
        }
    }
}

/// A chart adds its notes, sections and files to the totals, and its warnings behind the
/// others. What is told at the end are these sums.
pub proof fn totals_are_sums(
    totals: TotalsView,
    stats: StatsView,
    notes: u64,
    sections: u64,
    label: Option<Seq<char>>,
)
    requires
        stats.notes == grouped(notes as nat),
        stats.sections == grouped(sections as nat),
    ensures
        totals.with(stats, label).notes == totals.notes + notes,
        totals.with(stats, label).sections == totals.sections + sections,
        totals.with(stats, label).files == totals.files + stats.files,
        totals.with(stats, None).warnings == totals.warnings + stats.warnings,
        stats.warnings.len() == 0 ==> totals.with(stats, label).warnings == totals.warnings,
        (label is Some && stats.warnings.len() > 0) ==> totals.with(stats, label).warnings
            == totals.warnings + (label->0 + ": "@ + stats.warnings),
        totals.told().notes == grouped(totals.notes),
        totals.told().sections == grouped(totals.sections),
        totals.told().files == totals.files,
        totals.told().warnings == totals.warnings,
        totals.told().time.bits == 0,
{
    told_counts_are_counted(notes);
    told_counts_are_counted(sections);
    assert(stats.warnings.len() == 0 ==> stats.warnings =~= seq![]);
    assert(totals.warnings + seq![] =~= totals.warnings);
}

/// A conversion begins at the first input with nothing gathered.
pub proof fn conversions_begin_empty(mode: ConversionMode, count: nat)
    ensures
        ({
            let c = fresh(mode, count);
            &&& c.mode == mode
            &&& c.count == count
            &&& c.at == 0
            &&& c.name is None
            &&& c.jobs.len() == 0
            &&& c.merge.notes.len() == 0
            &&& c.merge.target is None
            &&& c.merge.skipped.len() == 0
            &&& c.totals.notes == 0 && c.totals.sections == 0 && c.totals.files == 0
            &&& c.totals.warnings.len() == 0
        }),
{
}

/// Reading is announced before every input but the first, and only then.
pub proof fn reading_is_announced(
    c: ConversionView,
    stats: StatsView,
    stem: Seq<char>,
    preset: ConversionPreset,
)
    ensures
        (c.mode == ConversionMode::Batch && c.at + 1 < c.count) ==> written_reports(
            c,
            stats,
            stem,
            preset,
        ) == seq![Progress::Stage("Reading FLP")],
        (c.mode == ConversionMode::Batch && c.at + 1 >= c.count) ==> written_reports(
            c,
            stats,
            stem,
            preset,
        ).len() == 0,
        (c.mode == ConversionMode::Single || c.mode == ConversionMode::Merge) ==> written_reports(
            c,
            stats,
            stem,
            preset,
        ).len() == 0,
{
}

/// After a chart the next input of a batch is read, or the next difficulty charted, or the
/// end is reached: no input and no difficulty is passed over or taken twice.
pub proof fn nothing_is_passed_over(
    c: ConversionView,
    stats: StatsView,
    stem: Seq<char>,
    preset: ConversionPreset,
)
    ensures
        (c.mode == ConversionMode::Batch && c.at + 1 < c.count) ==> after_written(
            c,
            stats,
            stem,
            preset,
        ).0 == Ok::<StepView, ConvertError>(StepView::Read(c.at + 1)),
        (c.mode == ConversionMode::Batch && c.at + 1 >= c.count) ==> after_written(
            c,
            stats,
            stem,
            preset,
        ).0 == Ok::<StepView, ConvertError>(
            StepView::Done(c.totals.with(stats, Some(stem)).told()),
        ),
        (c.mode == ConversionMode::SplitDifficulties && c.job >= c.jobs.len()) ==> after_written(
            c,
            stats,
            stem,
            preset,
        ).0 == Ok::<StepView, ConvertError>(StepView::Done(c.totals.with(stats, None).told())),
        (c.mode == ConversionMode::SplitDifficulties && c.job < c.jobs.len()) ==> {
            let (step, next) = after_written(c, stats, stem, preset);
            &&& next.job == c.job + 1
            &&& next.jobs == c.jobs
            &&& next.file == c.file
            &&& match split_chart_input(c.file, c.jobs[c.job as int].pattern_id, preset) {
                Err(e) => step == Err::<StepView, ConvertError>(e),
                Ok(input) => step matches Ok(StepView::Chart(task)) && task.input == input
                    && task.source == 0 && task.suffix == c.jobs[c.job as int].suffix,
            }
        },
        c.mode == ConversionMode::Single ==> after_written(c, stats, stem, preset).0 == Ok::<
            StepView,
            ConvertError,
        >(StepView::Done(stats)),
        c.mode == ConversionMode::Merge ==> {
            &&& after_written(c, stats, stem, preset).0 matches Ok(StepView::Done(last))
            &&& last.notes == stats.notes
            &&& last.sections == stats.sections
            &&& last.files == stats.files
            &&& last.time == stats.time
            &&& c.merge.skipped.len() == 0 ==> last.warnings == stats.warnings
            &&& c.merge.target matches Some(name) ==> last.warnings == stats.warnings
                + skipped_text(c.merge.skipped, quoted(name))
        },
{
    assert(stats.warnings + seq![] =~= stats.warnings);
}

/// What is read leads to a chart of what was read, in every mode as that asks for, or to
/// the next input, or to the error.
pub proof fn what_is_read_is_charted(
    c: ConversionView,
    bytes: Seq<u8>,
    file_name: Option<Seq<char>>,
    preset: ConversionPreset,
)
    ensures
        ({
            let (step, next) = after_read(c, bytes, file_name, preset);
            &&& c.mode == ConversionMode::Single ==> match single_chart_input(bytes, preset) {
                Err(e) => step == Err::<StepView, ConvertError>(e),
                Ok(input) => step matches Ok(StepView::Chart(task)) && task.input == input
                    && task.source == c.at && task.suffix@ == ""@,
            }
            &&& c.mode == ConversionMode::Batch ==> match batch_chart_input(bytes, c.name, preset) {
                Err(ConvertError::NoNotes) => c.at + 1 < c.count ==> step == Ok::<
                    StepView,
                    ConvertError,
                >(StepView::Read(c.at + 1)),
                Err(e) => step == Err::<StepView, ConvertError>(e),
                Ok(input) => step matches Ok(StepView::Chart(task)) && task.input == input
                    && task.source == c.at && task.suffix@ == ""@,
            }
            &&& c.mode == ConversionMode::Batch ==> next.totals == c.totals && next.name
                == batch_name(bytes, c.name, preset.pattern_id)
            &&& c.mode == ConversionMode::Merge ==> match merged(
                c.merge,
                bytes,
                file_name,
                preset.pattern_id,
            ) {
                Err(e) => step == Err::<StepView, ConvertError>(ConvertError::Flp(e)),
                Ok(merge) => {
                    &&& c.at + 1 < c.count ==> step == Ok::<StepView, ConvertError>(
                        StepView::Read(c.at + 1),
                    ) && next.merge == merge
                    &&& (c.at + 1 >= c.count && step is Ok) ==> (step matches Ok(
                        StepView::Chart(task),
                    ) && task.input.notes == merge.notes && task.input.ppq == merge.ppq)
                    &&& c.at + 1 >= c.count ==> next.merge.skipped == merge.skipped
                        && next.merge.target == merge.target
                },
            }
        }),
{
}

/// What is seen of what is told, of the totals and of a conversion is everything they hold.
pub proof fn views_show_whole_conversions(stats: Stats, totals: Totals, c: Conversion)
    ensures
        stats@.notes == stats.notes@,
        stats@.sections == stats.sections@,
        stats@.time == stats.time,
        stats@.files == stats.files,
        stats@.warnings == stats.warnings@,
        totals@.notes == totals.notes,
        totals@.sections == totals.sections,
        totals@.files == totals.files,
        totals@.warnings == totals.warnings@,
        c@.mode == c.mode,
        c@.count == c.count,
        c@.at == c.at,
        c@.merge == c.merge@,
        c@.file == c.file@,
        c@.jobs == c.jobs@,
        c@.job == c.job,
        c@.totals == c.totals@,
        c.name matches Some(name) ==> c@.name == Some(name@),
        c.name is None ==> c@.name is None,
{
}

/// A step is told exactly, with everything it holds, and so is an error.
pub proof fn steps_are_told_exactly(
    i: usize,
    task: ChartTask,
    stats: Stats,
    error: ConvertError,
    v: Result<StepView, ConvertError>,
)
    ensures
        same_step(Ok(Step::Read(i)), v) <==> v == Ok::<StepView, ConvertError>(
            StepView::Read(i as nat),
        ),
        same_step(Ok(Step::Chart(task)), v) <==> v == Ok::<StepView, ConvertError>(
            StepView::Chart(
                ChartTaskView {
                    input: task.input@,
                    source: task.source as nat,
                    suffix: task.suffix,
                },
            ),
        ),
        same_step(Ok(Step::Done(stats)), v) <==> v == Ok::<StepView, ConvertError>(
            StepView::Done(stats@),
        ),
        same_step(Err(error), v) <==> v == Err::<StepView, ConvertError>(error),
{
}

/// Reading an input is reported from its notes on; the next input is announced where one
/// is read next.
pub proof fn reading_is_reported(
    c: ConversionView,
    bytes: Seq<u8>,
    file_name: Option<Seq<char>>,
    preset: ConversionPreset,
)
    ensures
        ({
            let parsing = seq![Progress::Stage("Parsing notes")];
            let next = if after_read(c, bytes, file_name, preset).0 matches Ok(StepView::Read(_)) {
                seq![Progress::Stage("Reading FLP")]
            } else {
                seq![]
            };
            let reports = read_reports(c, bytes, file_name, preset);
            &&& c.mode == ConversionMode::Single ==> reports == parsing + input_reports(
                bytes,
                preset.pattern_id,
            )
            &&& c.mode == ConversionMode::Merge ==> reports == parsing + merge_reports(
                c.merge,
                bytes,
                preset.pattern_id,
            ) + next
            &&& c.mode == ConversionMode::Batch ==> reports == parsing + input_reports(
                bytes,
                batch_pattern(bytes, c.name, preset.pattern_id),
            ) + next
            &&& c.mode == ConversionMode::SplitDifficulties && planned_jobs(bytes) is Err
                ==> reports.len() == 0
            &&& c.mode == ConversionMode::SplitDifficulties && planned_jobs(bytes) is Ok ==> reports
                == parsing + flp_reports(bytes, Some(planned_jobs(bytes)->Ok_0[0].pattern_id))
        }),
{
}

} // verus!
